# candy

The verified core of candy, an animation engine for Typst. A document in the `.tyx` format is
standard Typst with directives for animation in it. This library parses such documents into
scenes, and turns rendered frames into videos and images.

Everything in `src/` is verified with [Verus](https://github.com/verus-lang/verus): each function
states what it returns, and Verus proves it. Calls into other crates (`typst_syntax`, `openh264`,
`gif`, `png`, `serde_json`) stand behind small wrappers whose
contracts are trusted; each says in its comment what it claims.

## Layout

Documents:

- `syntax`, `expr`, `number`, `text`, `table`: the syntax tree and the values in it
- `includes`: documents that are made of several files, and where a place in them comes from
- `symbols`, `walk`: which calls are directives, and the walk over the tree
- `args`, `directives`, `composite`, `counters`: what each directive does
- `context`, `scene`, `easing`, `diag`, `meta`: the state of the walk and what comes out of it
- `switching`: the order in which scenes are played
- `parse`: from source text to scene
- `invariants`: what every directive keeps

Media:

- `color`, `video`, `svg`, `images`: frames, canvases, colour planes, GIF, PNG
- `h264`, `av1`, `vaapi`, `bitstream`: coded streams and the samples made of them
- `audio`: Opus in Ogg, AAC in ADTS
- `mp4`, `ebml`, `matroska`, `bytes`: containers
- `ffmpeg`: command lines and exit states of the ffmpeg program

`tests/` runs the library on concrete documents and bytes. `app/` holds what cannot be verified:
files, processes, the GPU, scenes as JSON, and encoders and renderers that may panic.
