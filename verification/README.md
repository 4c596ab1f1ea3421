# rewynd

The core of an instant-replay clip recorder, verified with Verus: `src/` is a library whose
functions state in `requires` and `ensures` what they do, and Verus proves it.

- `nal`, `annexb`, `mux`, `container`, `read`, `seek`, `trim`: H.264 streams and MP4 clips, written
  and read back, and cut without re-encoding.
- `software`, `videotoolbox`, `gpu`, `fit`, `resolution`, `encode`, `encoders`: what the encoders
  are asked for, and what becomes of their output.
- `audio_mix`, `opus_audio`: mixing captured sound and framing it for Opus.
- `schema`: the configuration, its limits and its overrides.
- `paths`, `clips`, `clip_meta`, `upload_history`, `logs`, `status`, `activation`, `process`: files,
  clips and processes, as far as they are decided rather than done.
- `desktop`, `launch_agent`, `run_key`, `devices`, `installer`: the desktop around it.
- `text`, `clock`: what the others are written with.

What Verus takes on trust are the contracts of the functions marked `external_body`, of the
`assume_specification` items and of the declared outside types; each says which outside function it
speaks of. They are in `container` (the `mp4` crate), `software` (`openh264`), `devices`
(`serde_json`), `activation` and `text` (the standard library).

`app/` is ordinary Rust around the library: the installer's window, file and process I/O, the GPU,
and what works on floating-point numbers. `tests/` holds the library's tests.
