//! A size-capped log file set for the installed recorder, which has no console.
//!
//! A log appends to `<name>.log` and, once a write would take that file past its cap, shifts it
//! to `<name>.1.log` (and that to `.2.log`, …), dropping the oldest, so the whole set is bounded
//! by `max_bytes × keep` no matter how long the recorder runs. Rotation happens between writes,
//! never inside one, so a log line is never split across files.

use crate::paths::{join, joined};
use crate::text::{decimal, ends_with, has_suffix, lemma_decimal_value, push_decimal};
use vstd::prelude::*;

verus! {

/// How full the live log file is, and how many files are kept.
#[derive(Debug)]
pub struct RotatingLog {
    dir: String,
    name: String,
    written: u64,
    max_bytes: u64,
    keep: usize,
}

/// The stem of the rotated files' names.
pub open spec fn stem(name: Seq<char>) -> Seq<char> {
    if name.len() == 0 || name.last() == '/' {
        name + ".log"@
    } else {
        name
    }
}

/// The live file of the log `name` in `dir`.
pub open spec fn live_file(dir: Seq<char>, name: Seq<char>) -> Seq<char> {
    joined(dir, name + ".log"@)
}

/// The `index`-th rotated file of the log `name` in `dir`.
pub open spec fn rotated_file(dir: Seq<char>, name: Seq<char>, index: nat) -> Seq<char> {
    joined(dir, stem(name) + "."@ + decimal(index) + ".log"@)
}

/// The file that holds place `index` of the set: the live one first.
pub open spec fn file_at(dir: Seq<char>, name: Seq<char>, index: nat) -> Seq<char> {
    if index == 0 {
        live_file(dir, name)
    } else {
        rotated_file(dir, name, index)
    }
}

/// Whether a write of `len` bytes must go to a fresh file.
pub open spec fn must_rotate(size: nat, len: nat, cap: nat) -> bool {
    size > 0 && size + len > cap
}

/// The files of a disk: what each path holds.
pub type Disk = Map<Seq<char>, Seq<u8>>;

/// What `path` holds, if there is such a file.
pub open spec fn held(disk: Disk, path: Seq<char>) -> Option<Seq<u8>> {
    if disk.dom().contains(path) {
        Some(disk[path])
    } else {
        None
    }
}

/// The bytes in the file at `path`; none where there is no such file.
pub open spec fn bytes_at(disk: Disk, path: Seq<char>) -> Seq<u8> {
    match held(disk, path) {
        Some(bytes) => bytes,
        None => Seq::empty(),
    }
}

/// One thing to do on the disk for a write.
#[derive(Debug, PartialEq, Eq)]
pub enum LogStep {
    /// Give a file another name, taking the place of what is there. A missing file is skipped.
    Rename {
        /// The file.
        from: String,
        /// Its new name.
        to: String,
    },
    /// Start this file afresh, empty.
    Start {
        /// The file.
        path: String,
    },
    /// Append what is to be written to this file, as much of it as goes in at once.
    Append {
        /// The file.
        path: String,
    },
}

/// What a [`LogStep`] says.
pub enum StepText {
    /// A file gets another name.
    Rename { from: Seq<char>, to: Seq<char> },
    /// A file is started afresh.
    Start { path: Seq<char> },
    /// A file is appended to.
    Append { path: Seq<char> },
}

impl View for LogStep {
    type V = StepText;

    open spec fn view(&self) -> StepText {
        match *self {
            LogStep::Rename { from, to } => StepText::Rename { from: from@, to: to@ },
            LogStep::Start { path } => StepText::Start { path: path@ },
            LogStep::Append { path } => StepText::Append { path: path@ },
        }
    }
}

/// What steps say.
pub open spec fn texts(steps: Seq<LogStep>) -> Seq<StepText> {
    steps.map_values(|step: LogStep| step@)
}

/// The disk after one step, where `bytes` are what an append let through.
pub open spec fn stepped(disk: Disk, step: StepText, bytes: Seq<u8>) -> Disk {
    match step {
        StepText::Rename { from, to } => if disk.dom().contains(from) {
            disk.remove(from).insert(to, disk[from])
        } else {
            disk
        },
        StepText::Start { path } => disk.insert(path, Seq::empty()),
        StepText::Append { path } => disk.insert(path, bytes_at(disk, path) + bytes),
    }
}

/// The disk after steps that were done one after the other, where `bytes` are what an append let
/// through.
pub open spec fn performed(disk: Disk, steps: Seq<StepText>, bytes: Seq<u8>) -> Disk
    decreases steps.len(),
{
    if steps.len() == 0 {
        disk
    } else {
        stepped(performed(disk, steps.drop_last(), bytes), steps.last(), bytes)
    }
}

impl RotatingLog {
    #[verifier::type_invariant]
    spec fn in_range(self) -> bool {
        self.max_bytes >= 1 && self.keep >= 1
    }

    /// The directory.
    pub closed spec fn folder(self) -> Seq<char> {
        self.dir@
    }

    /// The log's name.
    pub closed spec fn title(self) -> Seq<char> {
        self.name@
    }

    /// Bytes in the live file.
    pub closed spec fn size(self) -> nat {
        self.written as nat
    }

    /// Cap of each file.
    pub closed spec fn cap(self) -> nat {
        self.max_bytes as nat
    }

    /// Files kept, the live one included.
    pub closed spec fn kept(self) -> nat {
        self.keep as nat
    }

    /// The file that holds place `index` of this log's set, the live one first.
    pub open spec fn place(self, index: int) -> Seq<char> {
        file_at(self.folder(), self.title(), index as nat)
    }

    /// Whether `moves` shift every file of the set up one place, the oldest place first.
    pub open spec fn shifts(self, moves: Seq<(String, String)>) -> bool {
        &&& moves.len() == self.kept() - 1
        &&& forall|k: int|
            0 <= k < moves.len() ==> (#[trigger] moves[k]).0@ == self.place(self.kept() - 2 - k)
                && moves[k].1@ == self.place(self.kept() - 1 - k)
    }

    /// Whether room was made for a write of `len` bytes: `rotate` says whether a fresh live file
    /// is owed, which is then empty.
    pub open spec fn made_room(self, after: Self, len: nat, rotate: bool) -> bool {
        &&& after.same_set(self)
        &&& rotate == must_rotate(self.size(), len, self.cap())
        &&& after.size() == if rotate {
            0
        } else {
            self.size()
        }
    }

    /// Whether `n` more bytes are counted.
    pub open spec fn counted(self, after: Self, n: nat) -> bool {
        &&& after.same_set(self)
        &&& after.size() == self.size() + n
    }

    /// Whether the disk is as this log's set leaves it: the live file is as long as was counted,
    /// no file of the set holds more than the cap, and there is none beyond those kept.
    pub open spec fn keeps(self, disk: Disk) -> bool {
        &&& self.cap() >= 1
        &&& self.kept() >= 1
        &&& self.size() == bytes_at(disk, self.place(0)).len()
        &&& forall|i: int|
            0 <= i < self.kept() ==> bytes_at(disk, #[trigger] self.place(i)).len() <= self.cap()
        &&& forall|i: int| i >= self.kept() ==> held(disk, #[trigger] self.place(i)) is None
    }

    /// The renames of a rotation.
    pub open spec fn renames(self) -> Seq<StepText> {
        Seq::new(
            (self.kept() - 1) as nat,
            |k: int|
                StepText::Rename {
                    from: self.place(self.kept() - 2 - k),
                    to: self.place(self.kept() - 1 - k),
                },
        )
    }

    /// The steps of a write: where a fresh live file is owed, the set is rotated and the live
    /// file started afresh. Either way the write goes to the live file.
    pub open spec fn steps(self, rotate: bool) -> Seq<StepText> {
        let ready = if rotate {
            self.renames().push(StepText::Start { path: self.place(0) })
        } else {
            Seq::empty()
        };
        ready.push(StepText::Append { path: self.place(0) })
    }

    /// Whether what place `i` held is found one place up.
    pub open spec fn goes_up(self, disk: Disk, now: Disk, i: int) -> bool {
        held(now, self.place(i + 1)) == held(disk, self.place(i))
    }

    /// Bytes in the first `n` files of the set.
    pub open spec fn total(self, disk: Disk, n: nat) -> nat
        decreases n,
    {
        if n == 0 {
            0
        } else {
            self.total(disk, (n - 1) as nat) + bytes_at(disk, self.place(n - 1)).len()
        }
    }

    /// Whether everything but the size is the same.
    pub open spec fn same_set(self, other: Self) -> bool {
        &&& self.folder() == other.folder()
        &&& self.title() == other.title()
        &&& self.cap() == other.cap()
        &&& self.kept() == other.kept()
    }

    /// The log `name` in `dir`, whose live file already holds `existing` bytes. `max_bytes` caps
    /// each file; `keep` is the number of files kept in total, the live one included (so `1`
    /// means the live file is simply truncated when full). Both are at least 1.
    pub fn open(dir: &str, name: &str, existing: u64, max_bytes: u64, keep: usize) -> (r: Self)
        ensures
            r.folder() == dir@,
            r.title() == name@,
            r.size() == existing,
            r.cap() == if max_bytes == 0 {
                1
            } else {
                max_bytes as nat
            },
            r.kept() == if keep == 0 {
                1
            } else {
                keep as nat
            },
    {
        RotatingLog {
            dir: dir.to_owned(),
            name: name.to_owned(),
            written: existing,
            max_bytes: if max_bytes == 0 {
                1
            } else {
                max_bytes
            },
            keep: if keep == 0 {
                1
            } else {
                keep
            },
        }
    }

    /// The live file's path.
    pub fn path(&self) -> (r: String)
        ensures
            r@ == live_file(self.folder(), self.title()),
    {
        let mut file = self.name.clone();
        file.append(".log");
        join(self.dir.as_str(), file.as_str())
    }

    /// `<name>.<index>.log` next to the live file.
    pub fn rotated(&self, index: usize) -> (r: String)
        ensures
            r@ == rotated_file(self.folder(), self.title(), index as nat),
    {
        proof {
            reveal_strlit("/");
        }
        let mut file = self.name.clone();
        if file.as_str().is_empty() || ends_with(file.as_str(), "/") {
            file.append(".log");
        }
        proof {
            let name = self.name@;
            if name.len() > 0 {
                let tail = name.subrange(name.len() - 1, name.len() as int);
                assert(tail[0] == name.last());
                if name.last() == '/' {
                    assert(tail =~= "/"@);
                }
                assert(has_suffix(name, "/"@) == (name.last() == '/'));
            }
            assert(file@ == stem(name));
        }
        file.append(".");
        push_decimal(&mut file, index as u64);
        file.append(".log");
        join(self.dir.as_str(), file.as_str())
    }

    /// The renames of a rotation, in order: every file shifts up one place, the oldest place
    /// first, so that none is overwritten before it was moved. A missing file is skipped. Then a
    /// fresh live file is started.
    pub fn rotation(&self) -> (r: Vec<(String, String)>)
        ensures
            self.shifts(r@),
    {
        proof {
            use_type_invariant(self);
        }
        let mut moves: Vec<(String, String)> = Vec::new();
        let mut index: usize = self.keep - 1;
        while index > 0
            invariant
                index < self.keep,
                moves@.len() == self.keep - 1 - index,
                forall|k: int|
                    0 <= k < moves@.len() ==> (#[trigger] moves@[k]).0@ == self.place(
                        self.kept() - 2 - k,
                    ) && moves@[k].1@ == self.place(self.kept() - 1 - k),
            decreases index,
        {
            let from = if index == 1 {
                self.path()
            } else {
                self.rotated(index - 1)
            };
            let to = self.rotated(index);
            moves.push((from, to));
            index = index - 1;
        }
        moves
    }

    /// Make room for a write of `len` bytes: `true` where the set must be rotated first. A single
    /// write larger than the cap still lands whole, in a fresh file.
    ///
    /// Afterwards the live file is empty or the write fits under its cap, so that no file ever
    /// holds more than the cap unless it holds one single write.
    pub fn make_room(&mut self, len: usize) -> (rotate: bool)
        ensures
            old(self).made_room(*final(self), len as nat, rotate),
            final(self).size() == 0 || final(self).size() + len <= final(self).cap(),
    {
        proof {
            use_type_invariant(&*self);
        }
        if self.written > 0 && self.written as u128 + len as u128 > self.max_bytes as u128 {
            self.written = 0;
            true
        } else {
            false
        }
    }

    /// The steps of a write of `len` bytes, to be done in their order; then [`wrote`](Self::wrote)
    /// is told how many bytes went through.
    ///
    /// Rotation happens between writes, never inside one, so a log line is never split across
    /// files.
    pub fn write(&mut self, len: usize) -> (steps: Vec<LogStep>)
        ensures
            old(self).made_room(
                *final(self),
                len as nat,
                must_rotate(old(self).size(), len as nat, old(self).cap()),
            ),
            texts(steps@) == old(self).steps(
                must_rotate(old(self).size(), len as nat, old(self).cap()),
            ),
    {
        let mut steps: Vec<LogStep> = Vec::new();
        if self.make_room(len) {
            let mut moves = self.rotation();
            let ghost all = moves@;
            let ghost renames = self.renames();
            let n: usize = moves.len();
            let mut k: usize = 0;
            proof {
                assert(texts(steps@) =~= renames.take(0));
            }
            while k < n
                invariant
                    k <= n,
                    n == all.len(),
                    moves@ == all.skip(k as int),
                    self.shifts(all),
                    renames == self.renames(),
                    texts(steps@) == renames.take(k as int),
                decreases n - k,
            {
                let (from, to) = moves.remove(0);
                let ghost before = steps@;
                steps.push(LogStep::Rename { from, to });
                proof {
                    assert(all.skip(k as int)[0] == all[k as int]);
                    assert(all.skip(k as int).remove(0) =~= all.skip(k + 1));
                    assert(steps@.last()@ == renames[k as int]);
                    assert(texts(steps@) =~= texts(before).push(renames[k as int]));
                    assert(renames.take(k + 1) =~= renames.take(k as int).push(renames[k as int]));
                }
                k = k + 1;
            }
            let ghost before = steps@;
            steps.push(LogStep::Start { path: self.path() });
            proof {
                assert(renames.take(n as int) =~= renames);
                assert(texts(steps@) =~= texts(before).push(StepText::Start { path: self.place(0) }));
            }
        }
        let ghost before = steps@;
        steps.push(LogStep::Append { path: self.path() });
        proof {
            assert(texts(steps@) =~= texts(before).push(StepText::Append { path: self.place(0) }));
            assert(old(self).renames() =~= self.renames());
            if before.len() == 0 {
                assert(texts(before) =~= Seq::<StepText>::empty());
            }
        }
        steps
    }

    /// Note that `n` bytes were written.
    pub fn wrote(&mut self, n: usize)
        requires
            old(self).size() + n <= u64::MAX,
        ensures
            old(self).counted(*final(self), n as nat),
    {
        proof {
            use_type_invariant(&*self);
        }
        self.written = self.written + n as u64;
    }
}

/// The places of a set are different files.
proof fn lemma_places(log: RotatingLog, i: int, j: int)
    requires
        0 <= i < j,
    ensures
        log.place(i) != log.place(j),
{
    reveal_strlit(".log");
    reveal_strlit(".");
    let (dir, name) = (log.folder(), log.title());
    lemma_decimal_value(i as nat);
    lemma_decimal_value(j as nat);
    let a = log.place(i);
    let b = log.place(j);
    let top = stem(name) + "."@ + decimal(j as nat) + ".log"@;
    if i == 0 {
        let live = name + ".log"@;
        assert(live[0] == top[0]) by {
            if name.len() == 0 {
                assert(live[0] == '.');
                assert(stem(name)[0] == '.');
            }
        }
        assert(live.len() < top.len());
        assert(a.len() < b.len());
    } else {
        let low = stem(name) + "."@ + decimal(i as nat) + ".log"@;
        assert(stem(name).len() > 0);
        assert(low[0] == top[0]);
        if a == b {
            assert(low.len() == top.len());
            let lead = (b.len() - top.len()) as int;
            assert(a.skip(lead) =~= low);
            assert(b.skip(lead) =~= top);
            let from = stem(name).len() + 1;
            let n = decimal(i as nat).len();
            assert(low.subrange(from as int, (from + n) as int) =~= decimal(i as nat));
            assert(top.subrange(from as int, (from + n) as int) =~= decimal(j as nat));
        }
    }
}

/// What the first `n` renames of a rotation leave: the places that they have come to hold what
/// the place below held, the one below those is free, and everything else is as it was. The
/// highest place stays as it was where the one below it was free.
proof fn lemma_renamed(log: RotatingLog, disk: Disk, bytes: Seq<u8>, n: nat)
    requires
        log.kept() >= 1,
        n <= log.kept() - 1,
    ensures
        ({
            let now = performed(disk, log.renames().take(n as int), bytes);
            let top = log.kept() - 1;
            &&& forall|i: int| 0 <= i < top - n ==> held(now, #[trigger] log.place(i)) == held(
                disk,
                log.place(i),
            )
            &&& n > 0 ==> held(now, log.place(top - n)) is None
            &&& n == 0 ==> now == disk
            &&& forall|i: int| top - n <= i < top - 1 ==> #[trigger] log.goes_up(disk, now, i)
            &&& n > 0 ==> held(now, log.place(top)) == if held(disk, log.place(top - 1)) is Some {
                held(disk, log.place(top - 1))
            } else {
                held(disk, log.place(top))
            }
            &&& forall|path: Seq<char>|
                (forall|i: int| 0 <= i <= top ==> path != log.place(i)) ==> #[trigger] held(
                    now,
                    path,
                ) == held(disk, path)
        }),
    decreases n,
{
    if n > 0 {
        let m = (n - 1) as nat;
        lemma_renamed(log, disk, bytes, m);
        let steps = log.renames().take(n as int);
        assert(steps.drop_last() =~= log.renames().take(m as int));
        let before = performed(disk, log.renames().take(m as int), bytes);
        let now = performed(disk, steps, bytes);
        let top = log.kept() - 1;
        let from = top - n;
        let to = from + 1;
        assert(steps.last() == (StepText::Rename { from: log.place(from), to: log.place(to) }));
        assert(now == stepped(before, steps.last(), bytes));
        lemma_places(log, from, to);
        assert(held(before, log.place(from)) == held(disk, log.place(from)));
        assert forall|i: int| 0 <= i <= top && i != from && i != to implies held(
            now,
            #[trigger] log.place(i),
        ) == held(before, log.place(i)) by {
            if i < from {
                lemma_places(log, i, from);
            } else {
                lemma_places(log, from, i);
            }
            if i < to {
                lemma_places(log, i, to);
            } else {
                lemma_places(log, to, i);
            }
        }
        assert forall|i: int| from <= i < top - 1 implies #[trigger] log.goes_up(disk, now, i) by {
            if i > from {
                assert(log.goes_up(disk, before, i));
                assert(held(now, log.place(i + 1)) == held(before, log.place(i + 1)));
            }
        }
        assert(held(now, log.place(to)) == if held(disk, log.place(from)) is Some {
            held(disk, log.place(from))
        } else {
            held(before, log.place(to))
        });
        assert forall|path: Seq<char>|
            (forall|i: int| 0 <= i <= top ==> path != log.place(i)) implies #[trigger] held(
            now,
            path,
        ) == held(disk, path) by {
            assert(path != log.place(from) && path != log.place(to));
            assert(held(before, path) == held(disk, path));
        }
    } else {
        assert(log.renames().take(0) =~= Seq::<StepText>::empty());
    }
}

/// What the steps of a write come to.
proof fn lemma_performed(log: RotatingLog, disk: Disk, rotate: bool, bytes: Seq<u8>)
    requires
        log.kept() >= 1,
    ensures
        ({
            let live = log.place(0);
            let ready = if rotate {
                performed(disk, log.renames(), bytes).insert(live, Seq::empty())
            } else {
                disk
            };
            performed(disk, log.steps(rotate), bytes) == ready.insert(
                live,
                bytes_at(ready, live) + bytes,
            )
        }),
{
    let steps = log.steps(rotate);
    let begun = log.renames().push(StepText::Start { path: log.place(0) });
    if rotate {
        assert(steps.drop_last() =~= begun);
        assert(begun.drop_last() =~= log.renames());
        assert(performed(disk, begun, bytes) == stepped(
            performed(disk, log.renames(), bytes),
            begun.last(),
            bytes,
        ));
    } else {
        assert(steps.drop_last() =~= Seq::<StepText>::empty());
    }
    assert(performed(disk, steps, bytes) == stepped(
        performed(disk, steps.drop_last(), bytes),
        steps.last(),
        bytes,
    ));
}

/// A write keeps the whole set within cap times files kept, as long as no single write is larger
/// than the cap: each file stays within the cap and there is none beyond those kept. Where `n`
/// bytes went through, the first `n` bytes of the write lie whole at the end of the live file.
/// Nothing but the oldest file is lost: every other one is found one place up where the set was
/// rotated (with a single file kept there is no such place, and the live file is truncated), and
/// where it was where the set was not. No file outside the set is touched.
pub proof fn law_set_is_bounded(
    log: RotatingLog,
    ready: RotatingLog,
    after: RotatingLog,
    rotate: bool,
    steps: Seq<LogStep>,
    disk: Disk,
    buf: Seq<u8>,
    n: nat,
)
    requires
        log.keeps(disk),
        buf.len() <= log.cap(),
        log.made_room(ready, buf.len(), rotate),
        texts(steps) == log.steps(rotate),
        n <= buf.len(),
        ready.counted(after, n),
    ensures
        ({
            let now = performed(disk, texts(steps), buf.take(n as int));
            let live = bytes_at(now, log.place(0));
            &&& after.keeps(now)
            &&& after.total(now, after.kept()) <= log.cap() * log.kept()
            &&& live == (if rotate {
                Seq::empty()
            } else {
                bytes_at(disk, log.place(0))
            }) + buf.take(n as int)
            &&& rotate ==> forall|i: int|
                0 <= i < log.kept() - 1 && held(disk, log.place(i)) is Some
                    ==> #[trigger] log.goes_up(disk, now, i)
            &&& !rotate ==> forall|i: int|
                0 < i < log.kept() ==> held(now, #[trigger] log.place(i)) == held(
                    disk,
                    log.place(i),
                )
            &&& forall|path: Seq<char>|
                (forall|i: int| 0 <= i < log.kept() ==> path != log.place(i)) ==> #[trigger] held(
                    now,
                    path,
                ) == held(disk, path)
        }),
{
    let top = log.kept() - 1;
    let bytes = buf.take(n as int);
    let now = performed(disk, log.steps(rotate), bytes);
    let shifted = performed(disk, log.renames(), bytes);
    lemma_performed(log, disk, rotate, bytes);
    assert forall|i: int| log.place(i) == after.place(i) by {}
    if rotate {
        lemma_renamed(log, disk, bytes, top as nat);
        assert(log.renames().take(top) =~= log.renames());
    }
    let base = if rotate {
        shifted
    } else {
        disk
    };
    assert forall|path: Seq<char>| path != log.place(0) implies #[trigger] held(now, path) == held(
        base,
        path,
    ) by {}
    assert forall|i: int| i > 0 implies held(now, #[trigger] log.place(i)) == held(
        base,
        log.place(i),
    ) by {
        lemma_places(log, 0, i);
    }
    assert(bytes_at(now, log.place(0)) =~= (if rotate {
        Seq::empty()
    } else {
        bytes_at(disk, log.place(0))
    }) + bytes);
    if rotate {
        assert forall|i: int|
            0 <= i < top && held(disk, log.place(i)) is Some implies #[trigger] log.goes_up(
            disk,
            now,
            i,
        ) by {
            assert(i < top - 1 ==> log.goes_up(disk, shifted, i));
        }
    }
    assert forall|i: int| 0 <= i < after.kept() implies bytes_at(
        now,
        #[trigger] after.place(i),
    ).len() <= after.cap() by {
        assert(after.place(i) == log.place(i));
        if i > 0 && rotate {
            assert(bytes_at(disk, log.place(i - 1)).len() <= log.cap());
            assert(bytes_at(disk, log.place(i)).len() <= log.cap());
            assert(i < top ==> log.goes_up(disk, shifted, i - 1));
        }
    }
    assert forall|i: int| i >= after.kept() implies held(now, #[trigger] after.place(i)) is None by {
        assert(after.place(i) == log.place(i));
        lemma_places(log, 0, i);
        if rotate {
            assert forall|k: int| 0 <= k <= top implies log.place(i) != log.place(k) by {
                lemma_places(log, k, i);
            }
        }
    }
    lemma_total(after, now, after.kept());
}

proof fn lemma_total(log: RotatingLog, disk: Disk, n: nat)
    requires
        forall|i: int|
            0 <= i < n ==> bytes_at(disk, #[trigger] log.place(i)).len() <= log.cap(),
    ensures
        log.total(disk, n) <= log.cap() * n,
    decreases n,
{
    if n > 0 {
        lemma_total(log, disk, (n - 1) as nat);
        assert(bytes_at(disk, log.place(n - 1)).len() <= log.cap());
        assert(log.cap() * n == log.cap() * (n - 1) + log.cap()) by (nonlinear_arith);
    }
}

/// A write goes to a fresh file only where it has to: as long as it fits, or the live file is
/// empty, nothing is moved; where it would take the file past its cap, it does.
pub proof fn law_rotates_only_when_full(
    log: RotatingLog,
    after: RotatingLog,
    len: nat,
    rotate: bool,
)
    requires
        log.made_room(after, len, rotate),
    ensures
        log.size() + len <= log.cap() ==> !rotate && after.size() == log.size(),
        log.size() == 0 ==> !rotate && after.size() == 0,
        log.size() > 0 && log.size() + len > log.cap() ==> rotate && after.size() == 0,
        after.folder() == log.folder() && after.title() == log.title(),
        after.cap() == log.cap() && after.kept() == log.kept(),
{
}

/// The live file is named after the log, and so is each rotated one, with its place before the
/// extension.
pub proof fn law_files_are_named_after_the_log(
    log: RotatingLog,
    index: usize,
    live: String,
    rotated: String,
)
    requires
        crate::paths::plain_folder(log.folder()),
        crate::paths::names_a_file(log.title()),
        call_ensures(RotatingLog::path, (&log,), live),
        call_ensures(RotatingLog::rotated, (&log, index), rotated),
    ensures
        live@ == log.folder() + seq!['/'] + log.title() + ".log"@,
        rotated@ == log.folder() + seq!['/'] + log.title() + seq!['.'] + decimal(index as nat)
            + ".log"@,
{
    reveal_strlit(".log");
    reveal_strlit(".");
    let name = log.title();
    assert(name[name.len() - 1] != '/');
    assert(name[0] != '/');
    assert(live@ =~= log.folder() + seq!['/'] + log.title() + ".log"@);
    assert(rotated@ =~= log.folder() + seq!['/'] + log.title() + seq!['.'] + decimal(index as nat)
        + ".log"@);
}

/// A rotation moves each file to the next place, the oldest first, so that none is overwritten
/// before it has moved; the live one becomes the first rotated one.
pub proof fn law_rotation_moves_each_file_on(
    log: RotatingLog,
    moves: Vec<(String, String)>,
    live: String,
    index: usize,
    there: String,
    before: String,
)
    requires
        1 <= index < log.kept(),
        call_ensures(RotatingLog::rotation, (&log,), moves),
        call_ensures(RotatingLog::path, (&log,), live),
        call_ensures(RotatingLog::rotated, (&log, index), there),
        call_ensures(RotatingLog::rotated, (&log, (index - 1) as usize), before),
    ensures
        moves@.len() == log.kept() - 1,
        moves@[log.kept() - 1 - index].1@ == there@,
        moves@[log.kept() - 1 - index].0@ == if index == 1 {
            live@
        } else {
            before@
        },
{
    let k = log.kept() - 1 - index;
    assert(moves@[k].0@ == log.place(log.kept() - 2 - k));
}

} // verus!
