//! Audio-input discovery for the settings' microphone picker: what the platform's listing says,
//! as a list of selectable inputs. All of it is best-effort — a failure yields an empty list and
//! the picker falls back to a free-text device name.

use crate::paths::owned_text;
use crate::text::{has_prefix, same, starts_with};
use vstd::prelude::*;

verus! {

/// A selectable audio input for the microphone picker.
#[derive(Debug, Clone, PartialEq, Eq)]
pub struct AudioInput {
    /// The value stored in the config and matched by the capture backend: the WASAPI endpoint's
    /// friendly name on Windows, the PipeWire `node.name` on Linux, the CoreAudio device name
    /// on macOS.
    pub id: String,
    /// A human-friendly label shown in the picker (the friendly name on Windows, the PipeWire
    /// `node.description` on Linux, the device name on macOS).
    pub label: String,
}

/// An input as text: its id and its label.
pub struct InputText {
    pub id: Seq<char>,
    pub label: Seq<char>,
}

/// The texts of inputs.
pub open spec fn texts_of(inputs: Seq<AudioInput>) -> Seq<InputText> {
    Seq::new(inputs.len(), |i: int| InputText { id: inputs[i].id@, label: inputs[i].label@ })
}

/// `serde_json::Value`: any JSON value.
#[verifier::external_type_specification]
#[verifier::external_body]
pub struct ExJsonValue(serde_json::Value);

/// What stands at each JSON pointer into a value that leads somewhere: the text there, or `None`
/// where it is not a string.
pub uninterp spec fn strings(value: serde_json::Value) -> Map<Seq<char>, Option<Seq<char>>>;

/// The items of the JSON array that these bytes spell, each as its strings; `None` where they
/// spell no JSON array.
pub uninterp spec fn items_of(json: Seq<u8>) -> Option<Seq<Map<Seq<char>, Option<Seq<char>>>>>;

/// `serde_json::from_slice` into a `Value`, and the items where that is an array. Which bytes
/// spell an array, and of what, depends on the bytes alone.
#[verifier::external_body]
fn parse_array(json: &[u8]) -> (r: Option<Vec<serde_json::Value>>)
    ensures
        match r {
            Some(items) => items_of(json@) == Some(
                Seq::new(items@.len(), |i: int| strings(items@[i])),
            ),
            None => items_of(json@) is None,
        },
{
    match serde_json::from_slice::<serde_json::Value>(json) {
        Ok(serde_json::Value::Array(items)) => Some(items),
        Ok(_) => None,
        Err(_) => None,
    }
}

/// `serde_json::Value::pointer` and, where it leads somewhere, `as_str` of what is there.
#[verifier::external_body]
fn string_at(value: &serde_json::Value, pointer: &str) -> (r: Option<Option<String>>)
    ensures
        match r {
            Some(text) => strings(*value).contains_key(pointer@) && strings(*value)[pointer@]
                == owned_text(text),
            None => !strings(*value).contains_key(pointer@),
        },
{
    value.pointer(pointer).map(|found| found.as_str().map(str::to_owned))
}

/// What a PipeWire dump says of one object, as far as the picker needs it.
#[derive(Debug, Clone, PartialEq, Eq)]
pub struct DumpObject {
    /// The object's interface.
    pub interface: Option<String>,
    /// Whether it has properties.
    pub has_props: bool,
    /// `media.class`.
    pub media_class: Option<String>,
    /// `node.name`.
    pub node_name: Option<String>,
    /// `node.description`, where there is one; `Some(None)` is one that is not text.
    pub description: Option<Option<String>>,
    /// `node.nick`.
    pub nick: Option<String>,
}

/// The text at a pointer.
pub open spec fn text_at(object: Map<Seq<char>, Option<Seq<char>>>, pointer: Seq<char>) -> Option<
    Seq<char>,
> {
    if object.contains_key(pointer) {
        object[pointer]
    } else {
        None
    }
}

/// Whether an object is what a dump says of it.
pub open spec fn describes(o: DumpObject, object: Map<Seq<char>, Option<Seq<char>>>) -> bool {
    &&& owned_text(o.interface) == text_at(object, "/type"@)
    &&& o.has_props == object.contains_key("/info/props"@)
    &&& owned_text(o.media_class) == text_at(object, "/info/props/media.class"@)
    &&& owned_text(o.node_name) == text_at(object, "/info/props/node.name"@)
    &&& match o.description {
        Some(text) => object.contains_key("/info/props/node.description"@)
            && object["/info/props/node.description"@] == owned_text(text),
        None => !object.contains_key("/info/props/node.description"@),
    }
    &&& owned_text(o.nick) == text_at(object, "/info/props/node.nick"@)
}

/// The text to show for an input: its description, or its nick where it has no description;
/// where that is not text or empty, its name.
pub open spec fn label_of(o: DumpObject, id: Seq<char>) -> Seq<char> {
    let shown = match o.description {
        Some(text) => owned_text(text),
        None => owned_text(o.nick),
    };
    match shown {
        Some(text) => if text.len() > 0 {
            text
        } else {
            id
        },
        None => id,
    }
}

/// The input that an object is, if it is one: a node of an `Audio/Source` class (sink monitors
/// are `Audio/Sink` and are excluded, matching the mic-capture path) with a name.
pub open spec fn input_of(o: DumpObject) -> Option<InputText> {
    if owned_text(o.interface) == Some("PipeWire:Interface:Node"@) && o.has_props
        && o.media_class is Some && has_prefix(o.media_class->0@, "Audio/Source"@)
        && o.node_name is Some && o.node_name->0@.len() > 0 {
        Some(InputText { id: o.node_name->0@, label: label_of(o, o.node_name->0@) })
    } else {
        None
    }
}

/// Whether one of the inputs has this id.
pub open spec fn listed(inputs: Seq<InputText>, id: Seq<char>) -> bool {
    exists|i: int| 0 <= i < inputs.len() && (#[trigger] inputs[i]).id == id
}

/// The inputs among the first `n` objects. A device can appear more than once in a dump (state
/// churn): the first stays.
pub open spec fn inputs_among(objects: Seq<DumpObject>, n: int) -> Seq<InputText>
    decreases n,
{
    if n <= 0 {
        Seq::empty()
    } else {
        let before = inputs_among(objects, n - 1);
        match input_of(objects[n - 1]) {
            Some(input) => if listed(before, input.id) {
                before
            } else {
                before.push(input)
            },
            None => before,
        }
    }
}

fn input_from(o: &DumpObject) -> (r: Option<AudioInput>)
    ensures
        match r {
            Some(input) => input_of(*o) == Some(
                InputText { id: input.id@, label: input.label@ },
            ),
            None => input_of(*o) is None,
        },
{
    let is_node = match &o.interface {
        Some(interface) => same(interface.as_str(), "PipeWire:Interface:Node"),
        None => false,
    };
    if !is_node || !o.has_props {
        return None;
    }
    let is_source = match &o.media_class {
        Some(class) => starts_with(class.as_str(), "Audio/Source"),
        None => false,
    };
    if !is_source {
        return None;
    }
    let id = match &o.node_name {
        Some(name) => if name.as_str().is_empty() {
            return None;
        } else {
            name.clone()
        },
        None => {
            return None;
        },
    };
    let shown = match &o.description {
        Some(text) => text,
        None => &o.nick,
    };
    let label = match shown {
        Some(text) => if text.as_str().is_empty() {
            id.clone()
        } else {
            text.clone()
        },
        None => id.clone(),
    };
    Some(AudioInput { id, label })
}

/// The audio sources among the objects of a PipeWire dump. The id is the `node.name` (what the
/// capture backend matches); the label is the friendlier `node.description`.
pub fn audio_inputs(objects: &[DumpObject]) -> (r: Vec<AudioInput>)
    ensures
        texts_of(r@) == inputs_among(objects@, objects@.len() as int),
{
    let mut inputs: Vec<AudioInput> = Vec::new();
    let mut k: usize = 0;
    proof {
        assert(texts_of(inputs@) =~= Seq::empty());
    }
    while k < objects.len()
        invariant
            k <= objects@.len(),
            texts_of(inputs@) == inputs_among(objects@, k as int),
        decreases objects@.len() - k,
    {
        let ghost before = texts_of(inputs@);
        match input_from(&objects[k]) {
            Some(input) => {
                let mut seen = false;
                let mut j: usize = 0;
                while j < inputs.len()
                    invariant
                        j <= inputs@.len(),
                        before == texts_of(inputs@),
                        seen == exists|i: int|
                            0 <= i < j && (#[trigger] before[i]).id == input.id@,
                    decreases inputs@.len() - j,
                {
                    if same(inputs[j].id.as_str(), input.id.as_str()) {
                        proof {
                            assert(before[j as int].id == input.id@);
                        }
                        seen = true;
                    }
                    j = j + 1;
                }
                proof {
                    assert(seen == listed(before, input.id@));
                }
                if !seen {
                    inputs.push(input);
                    proof {
                        assert(texts_of(inputs@) =~= before.push(
                            InputText { id: input.id@, label: input.label@ },
                        ));
                    }
                }
            },
            None => {},
        }
        k = k + 1;
    }
    inputs
}

/// Whether objects are the items that a dump spells.
pub open spec fn dumped(objects: Seq<DumpObject>, json: Seq<u8>) -> bool {
    &&& items_of(json) is Some
    &&& objects.len() == items_of(json)->0.len()
    &&& forall|i: int|
        0 <= i < objects.len() ==> describes(#[trigger] objects[i], items_of(json)->0[i])
}

/// Extract the audio sources from a `pw-dump` JSON payload.
pub fn parse_pw_dump(json: &[u8]) -> (r: Vec<AudioInput>)
    ensures
        items_of(json@) is None ==> r@.len() == 0,
        items_of(json@) is Some ==> exists|objects: Seq<DumpObject>|
            #[trigger] dumped(objects, json@) && texts_of(r@) == inputs_among(
                objects,
                objects.len() as int,
            ),
{
    let items = match parse_array(json) {
        Some(items) => items,
        None => {
            return Vec::new();
        },
    };
    let mut objects: Vec<DumpObject> = Vec::new();
    let mut k: usize = 0;
    while k < items.len()
        invariant
            k <= items@.len(),
            objects@.len() == k,
            forall|i: int|
                0 <= i < k ==> describes(#[trigger] objects@[i], strings(items@[i])),
        decreases items@.len() - k,
    {
        let item = &items[k];
        let object = DumpObject {
            interface: flattened(string_at(item, "/type")),
            has_props: string_at(item, "/info/props").is_some(),
            media_class: flattened(string_at(item, "/info/props/media.class")),
            node_name: flattened(string_at(item, "/info/props/node.name")),
            description: string_at(item, "/info/props/node.description"),
            nick: flattened(string_at(item, "/info/props/node.nick")),
        };
        objects.push(object);
        k = k + 1;
    }
    proof {
        assert(dumped(objects@, json@));
    }
    audio_inputs(objects.as_slice())
}

fn flattened(text: Option<Option<String>>) -> (r: Option<String>)
    ensures
        r == match text {
            Some(inner) => inner,
            None => None,
        },
{
    match text {
        Some(inner) => inner,
        None => None,
    }
}

/// The audio inputs for the microphone picker, given what `pw-dump` printed: nothing where it is
/// missing, failed, or did not finish in time.
pub fn list_audio_inputs(dump: Option<&[u8]>) -> (r: Vec<AudioInput>)
    ensures
        match dump {
            Some(json) => {
                &&& items_of(json@) is None ==> r@.len() == 0
                &&& items_of(json@) is Some ==> exists|objects: Seq<DumpObject>|
                    #[trigger] dumped(objects, json@) && texts_of(r@) == inputs_among(
                        objects,
                        objects.len() as int,
                    )
            },
            None => r@.len() == 0,
        },
{
    match dump {
        Some(json) => parse_pw_dump(json),
        None => Vec::new(),
    }
}

/// The non-empty names among the first `n`.
pub open spec fn named(names: Seq<String>, n: int) -> Seq<InputText>
    decreases n,
{
    if n <= 0 {
        Seq::empty()
    } else if names[n - 1]@.len() == 0 {
        named(names, n - 1)
    } else {
        named(names, n - 1).push(InputText { id: names[n - 1]@, label: names[n - 1]@ })
    }
}

/// The audio inputs where a listing gives device names only: the name is both what the picker
/// shows and what the capture backend resolves. A nameless device is skipped.
pub fn named_inputs(names: &[String]) -> (r: Vec<AudioInput>)
    ensures
        texts_of(r@) == named(names@, names@.len() as int),
{
    let mut inputs: Vec<AudioInput> = Vec::new();
    let mut k: usize = 0;
    proof {
        assert(texts_of(inputs@) =~= Seq::empty());
    }
    while k < names.len()
        invariant
            k <= names@.len(),
            texts_of(inputs@) == named(names@, k as int),
        decreases names@.len() - k,
    {
        if !names[k].as_str().is_empty() {
            let ghost before = texts_of(inputs@);
            inputs.push(AudioInput { id: names[k].clone(), label: names[k].clone() });
            proof {
                let name = names@[k as int]@;
                assert(texts_of(inputs@) =~= before.push(InputText { id: name, label: name }));
            }
        }
        k = k + 1;
    }
    inputs
}

/// A four-character property code, as the CoreAudio headers spell their constants: big-endian.
pub fn fourcc(code: &[u8; 4]) -> (r: u32)
    ensures
        r == code@[0] * 0x100_0000 + code@[1] * 0x1_0000 + code@[2] * 0x100 + code@[3],
{
    code[0] as u32 * 0x100_0000 + code[1] as u32 * 0x1_0000 + code[2] as u32 * 0x100
        + code[3] as u32
}

/// No two inputs of a list share an id, and every one has a name.
pub proof fn law_inputs_are_distinct(objects: Seq<DumpObject>, n: int)
    requires
        0 <= n <= objects.len(),
    ensures
        forall|i: int, j: int|
            0 <= i < j < inputs_among(objects, n).len() ==> #[trigger] inputs_among(objects, n)[i].id
                != #[trigger] inputs_among(objects, n)[j].id,
        forall|i: int|
            0 <= i < inputs_among(objects, n).len() ==> (#[trigger] inputs_among(
                objects,
                n,
            )[i]).id.len() > 0,
    decreases n,
{
    if n > 0 {
        law_inputs_are_distinct(objects, n - 1);
        let before = inputs_among(objects, n - 1);
        let now = inputs_among(objects, n);
        if now.len() > before.len() {
            let input = input_of(objects[n - 1])->0;
            assert forall|i: int, j: int| 0 <= i < j < now.len() implies #[trigger] now[i].id
                != #[trigger] now[j].id by {
                assert(now[i] == before[i]);
                if j < before.len() {
                    assert(now[j] == before[j]);
                }
            }
        }
    }
}

/// The picker offers the microphones and nothing else: every input is a node of an audio-source
/// class, under the name that the capture matches, and every such node that has a name is offered.
pub proof fn law_every_source_is_offered(objects: Seq<DumpObject>, n: int)
    requires
        0 <= n <= objects.len(),
    ensures
        forall|i: int|
            0 <= i < inputs_among(objects, n).len() ==> comes_from(
                objects,
                n,
                #[trigger] inputs_among(objects, n)[i],
            ),
        forall|k: int|
            0 <= k < n && is_source(#[trigger] objects[k]) ==> listed(
                inputs_among(objects, n),
                objects[k].node_name->0@,
            ),
    decreases n,
{
    if n > 0 {
        law_every_source_is_offered(objects, n - 1);
        let before = inputs_among(objects, n - 1);
        let now = inputs_among(objects, n);
        let last = objects[n - 1];
        assert forall|i: int| 0 <= i < now.len() implies comes_from(
            objects,
            n,
            #[trigger] now[i],
        ) by {
            if i < before.len() {
                assert(now[i] == before[i]);
                assert(comes_from(objects, n - 1, before[i]));
                let k = choose|k: int| 0 <= k < n - 1 && #[trigger] is_input(objects[k], before[i]);
                assert(is_input(objects[k], now[i]));
            } else {
                assert(is_input(last, now[i]));
            }
        }
        assert forall|k: int| 0 <= k < n && is_source(#[trigger] objects[k]) implies listed(
            now,
            objects[k].node_name->0@,
        ) by {
            let id = objects[k].node_name->0@;
            if k < n - 1 || listed(before, id) {
                assert(listed(before, id));
                let i = choose|i: int| 0 <= i < before.len() && (#[trigger] before[i]).id == id;
                assert(now[i].id == id);
            } else {
                assert(now[now.len() - 1].id == id);
            }
        }
    }
}

/// Whether an input is one of the first `n` objects.
pub open spec fn comes_from(objects: Seq<DumpObject>, n: int, input: InputText) -> bool {
    exists|k: int| 0 <= k < n && #[trigger] is_input(objects[k], input)
}

/// Whether an input is a microphone, under its name and its label.
pub open spec fn is_input(o: DumpObject, input: InputText) -> bool {
    is_source(o) && o.node_name->0@ == input.id && shown_as(o, input.label)
}

/// Whether an object is a microphone that can be picked: a node of an `Audio/Source` class that has
/// a name.
pub open spec fn is_source(o: DumpObject) -> bool {
    &&& o.interface matches Some(interface) && interface@ == "PipeWire:Interface:Node"@
    &&& o.has_props
    &&& o.media_class matches Some(class) && class@.len() >= "Audio/Source"@.len() && class@.take(
        "Audio/Source"@.len() as int,
    ) == "Audio/Source"@
    &&& o.node_name matches Some(name) && name@.len() > 0
}

/// Whether an object may be shown as `label`: its description or its nick, where that is a text,
/// and else its name.
pub open spec fn shown_as(o: DumpObject, label: Seq<char>) -> bool {
    match (o.description, o.nick) {
        (Some(Some(text)), _) if text@.len() > 0 => label == text@,
        (None, Some(text)) if text@.len() > 0 => label == text@,
        _ => label == o.node_name->0@,
    }
}

/// Where a listing gives names only, every name is offered, in order, and none that is empty.
pub proof fn law_every_named_device_is_offered(names: Seq<String>, n: int)
    requires
        0 <= n <= names.len(),
    ensures
        named(names, n) == names.take(n).filter(|name: String| name@.len() > 0).map_values(
            |name: String| InputText { id: name@, label: name@ },
        ),
    decreases n,
{
    reveal(Seq::filter);
    let keep = |name: String| name@.len() > 0;
    let text = |name: String| InputText { id: name@, label: name@ };
    if n > 0 {
        law_every_named_device_is_offered(names, n - 1);
        assert(names.take(n).drop_last() =~= names.take(n - 1));
        let before = names.take(n - 1).filter(keep);
        let last = names[n - 1];
        if last@.len() > 0 {
            assert(before.push(last).map_values(text) =~= before.map_values(text).push(text(last)));
        }
    } else {
        assert(named(names, n) =~= names.take(n).filter(keep).map_values(text));
    }
}

/// What is read of an object of a dump stands where the dump has it: the class and the name of
/// the node, its description and its nick among its properties.
pub proof fn law_fields_are_read_from_their_places(
    o: DumpObject,
    object: Map<Seq<char>, Option<Seq<char>>>,
)
    requires
        describes(o, object),
    ensures
        o.interface matches Some(text) ==> object.contains_key("/type"@) && object["/type"@] == Some(
            text@,
        ),
        o.media_class matches Some(text) ==> object.contains_key("/info/props/media.class"@)
            && object["/info/props/media.class"@] == Some(text@),
        o.node_name matches Some(text) ==> object.contains_key("/info/props/node.name"@)
            && object["/info/props/node.name"@] == Some(text@),
        o.nick matches Some(text) ==> object.contains_key("/info/props/node.nick"@)
            && object["/info/props/node.nick"@] == Some(text@),
        o.description matches Some(Some(text)) ==> object.contains_key(
            "/info/props/node.description"@,
        ) && object["/info/props/node.description"@] == Some(text@),
        object.contains_key("/info/props/node.name"@) && object["/info/props/node.name"@] is Some
            ==> o.node_name is Some,
        object.contains_key("/info/props/media.class"@) && object["/info/props/media.class"@] is Some
            ==> o.media_class is Some,
        o.has_props == object.contains_key("/info/props"@),
{
}

} // verus!
