//! Candy: the verified core of an animation renderer for `.tyx` documents.

pub mod args;
pub mod arguments;
pub mod audio;
pub mod av1;
pub mod bitstream;
pub mod boxes;
pub mod bytes;
pub mod color;
pub mod commands;
pub mod composite;
pub mod contents;
pub mod context;
pub mod counters;
pub mod diag;
pub mod directives;
pub mod dispatch;
pub mod easing;
pub mod ebml;
pub mod effects;
pub mod elements;
pub mod expr;
pub mod ffmpeg;
pub mod h264;
pub mod images;
pub mod includes;
pub mod invariants;
pub mod matroska;
pub mod meta;
pub mod mp4;
pub mod number;
pub mod parse;
pub mod scene;
pub mod pictures;
pub mod playing;
pub mod stage;
pub mod svg;
pub mod switching;
pub mod symbols;
pub mod syntax;
pub mod table;
pub mod text;
pub mod vaapi;
pub mod video;
pub mod walk;
