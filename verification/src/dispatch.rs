//! Which directive a name stands for.

use vstd::prelude::*;
use crate::composite::{blink, fade_transform, morph, reveal_text, spiral_in, subtitle, transform};
use crate::context::CtxView;
use crate::counters::{counter_event, ecnew, kcnew, kcpush};
use crate::directives::{
    animate, appear_disappear, audio, camera, flash, focus_on, group, indicate, mobject,
    move_along_path, pause, play, restore, save_state, scene_switch, set_color, track, wiggle,
};
use crate::scene::CounterEventKind;
use crate::syntax::NodeView;
use crate::walk::{
    content_directive, counter_directive, directive, emphasis_directive, look_directive,
    text_directive,
};

verus! {

/// A number by which the names of the directives are told apart: their length and their first two
/// letters.
spec fn spelling(s: Seq<char>) -> int {
    s.len() * 1_000_000 + s[0] as int * 1000 + s[1] as int
}

proof fn lemma_spelled()
    ensures
        spelling("track"@) == 5116114,
        spelling("mobject"@) == 7109111,
        spelling("animate"@) == 7097110,
        spelling("pause"@) == 5112097,
        spelling("audio"@) == 5097117,
        spelling("play"@) == 4112108,
        spelling("save-state"@) == 10115097,
        spelling("restore"@) == 7114101,
        spelling("indicate"@) == 8105110,
        spelling("flash"@) == 5102108,
        spelling("wiggle"@) == 6119105,
        spelling("appear"@) == 6097112,
        spelling("disappear"@) == 9100105,
        spelling("set-color"@) == 9115101,
        spelling("blink"@) == 5098108,
        spelling("spiral-in"@) == 9115112,
        spelling("focus-on"@) == 8102111,
        spelling("fade-transform"@) == 14102097,
        spelling("move-along-path"@) == 15109111,
        spelling("morph"@) == 5109111,
        spelling("transform"@) == 9116114,
        spelling("camera"@) == 6099097,
        spelling("group"@) == 5103114,
        spelling("reveal"@) == 6114101,
        spelling("typewriter"@) == 10116121,
        spelling("subtitle"@) == 8115117,
        spelling("scene-switch"@) == 12115099,
        spelling("ecnew"@) == 5101099,
        spelling("ecpause"@) == 7101099,
        spelling("ecresume"@) == 8101099,
        spelling("ecdestroy"@) == 9101099,
        spelling("kcnew"@) == 5107099,
        spelling("kcpush"@) == 6107099,
        spelling("kcpause"@) == 7107099,
        spelling("kcresume"@) == 8107099,
        spelling("kcdestroy"@) == 9107099,
{
    reveal_strlit("track");
    reveal_strlit("mobject");
    reveal_strlit("animate");
    reveal_strlit("pause");
    reveal_strlit("audio");
    reveal_strlit("play");
    reveal_strlit("save-state");
    reveal_strlit("restore");
    reveal_strlit("indicate");
    reveal_strlit("flash");
    reveal_strlit("wiggle");
    reveal_strlit("appear");
    reveal_strlit("disappear");
    reveal_strlit("set-color");
    reveal_strlit("blink");
    reveal_strlit("spiral-in");
    reveal_strlit("focus-on");
    reveal_strlit("fade-transform");
    reveal_strlit("move-along-path");
    reveal_strlit("morph");
    reveal_strlit("transform");
    reveal_strlit("camera");
    reveal_strlit("group");
    reveal_strlit("reveal");
    reveal_strlit("typewriter");
    reveal_strlit("subtitle");
    reveal_strlit("scene-switch");
    reveal_strlit("ecnew");
    reveal_strlit("ecpause");
    reveal_strlit("ecresume");
    reveal_strlit("ecdestroy");
    reveal_strlit("kcnew");
    reveal_strlit("kcpush");
    reveal_strlit("kcpause");
    reveal_strlit("kcresume");
    reveal_strlit("kcdestroy");
}

proof fn lemma_other_name(s: Seq<char>)
    ensures
        spelling(s) != 5116114 ==> s != "track"@,
        spelling(s) != 7109111 ==> s != "mobject"@,
        spelling(s) != 7097110 ==> s != "animate"@,
        spelling(s) != 5112097 ==> s != "pause"@,
        spelling(s) != 5097117 ==> s != "audio"@,
        spelling(s) != 4112108 ==> s != "play"@,
        spelling(s) != 10115097 ==> s != "save-state"@,
        spelling(s) != 7114101 ==> s != "restore"@,
        spelling(s) != 8105110 ==> s != "indicate"@,
        spelling(s) != 5102108 ==> s != "flash"@,
        spelling(s) != 6119105 ==> s != "wiggle"@,
        spelling(s) != 6097112 ==> s != "appear"@,
        spelling(s) != 9100105 ==> s != "disappear"@,
        spelling(s) != 9115101 ==> s != "set-color"@,
        spelling(s) != 5098108 ==> s != "blink"@,
        spelling(s) != 9115112 ==> s != "spiral-in"@,
        spelling(s) != 8102111 ==> s != "focus-on"@,
        spelling(s) != 14102097 ==> s != "fade-transform"@,
        spelling(s) != 15109111 ==> s != "move-along-path"@,
        spelling(s) != 5109111 ==> s != "morph"@,
        spelling(s) != 9116114 ==> s != "transform"@,
        spelling(s) != 6099097 ==> s != "camera"@,
        spelling(s) != 5103114 ==> s != "group"@,
        spelling(s) != 6114101 ==> s != "reveal"@,
        spelling(s) != 10116121 ==> s != "typewriter"@,
        spelling(s) != 8115117 ==> s != "subtitle"@,
        spelling(s) != 12115099 ==> s != "scene-switch"@,
        spelling(s) != 5101099 ==> s != "ecnew"@,
        spelling(s) != 7101099 ==> s != "ecpause"@,
        spelling(s) != 8101099 ==> s != "ecresume"@,
        spelling(s) != 9101099 ==> s != "ecdestroy"@,
        spelling(s) != 5107099 ==> s != "kcnew"@,
        spelling(s) != 6107099 ==> s != "kcpush"@,
        spelling(s) != 7107099 ==> s != "kcpause"@,
        spelling(s) != 8107099 ==> s != "kcresume"@,
        spelling(s) != 9107099 ==> s != "kcdestroy"@,
{
    lemma_spelled();
}

proof fn past_directive(c: CtxView, call: NodeView, sym: Seq<char>)
    requires
        sym != "track"@,
        sym != "mobject"@,
        sym != "animate"@,
        sym != "pause"@,
        sym != "audio"@,
        sym != "play"@,
    ensures
        directive(c, call, sym) == emphasis_directive(c, call, sym),
{
    reveal(directive);
}

proof fn past_emphasis_directive(c: CtxView, call: NodeView, sym: Seq<char>)
    requires
        sym != "save-state"@,
        sym != "restore"@,
        sym != "indicate"@,
        sym != "flash"@,
        sym != "wiggle"@,
        sym != "appear"@,
        sym != "disappear"@,
    ensures
        emphasis_directive(c, call, sym) == look_directive(c, call, sym),
{
    reveal(emphasis_directive);
}

proof fn past_look_directive(c: CtxView, call: NodeView, sym: Seq<char>)
    requires
        sym != "set-color"@,
        sym != "blink"@,
        sym != "spiral-in"@,
        sym != "focus-on"@,
        sym != "fade-transform"@,
        sym != "move-along-path"@,
    ensures
        look_directive(c, call, sym) == content_directive(c, call, sym),
{
    reveal(look_directive);
}

proof fn past_content_directive(c: CtxView, call: NodeView, sym: Seq<char>)
    requires
        sym != "morph"@,
        sym != "transform"@,
        sym != "camera"@,
        sym != "group"@,
    ensures
        content_directive(c, call, sym) == text_directive(c, call, sym),
{
    reveal(content_directive);
}

proof fn past_text_directive(c: CtxView, call: NodeView, sym: Seq<char>)
    requires
        sym != "reveal"@,
        sym != "typewriter"@,
        sym != "subtitle"@,
        sym != "scene-switch"@,
    ensures
        text_directive(c, call, sym) == counter_directive(c, call, sym),
{
    reveal(text_directive);
}

pub(crate) proof fn is_track(c: CtxView, call: NodeView)
    ensures
        directive(c, call, "track"@) == track(c, call),
{
    lemma_spelled();
    lemma_other_name("track"@);
    reveal(directive);
}

pub(crate) proof fn is_mobject(c: CtxView, call: NodeView)
    ensures
        directive(c, call, "mobject"@) == mobject(c, call),
{
    lemma_spelled();
    lemma_other_name("mobject"@);
    reveal(directive);
}

pub(crate) proof fn is_animate(c: CtxView, call: NodeView)
    ensures
        directive(c, call, "animate"@) == animate(c, call),
{
    lemma_spelled();
    lemma_other_name("animate"@);
    reveal(directive);
}

pub(crate) proof fn is_pause(c: CtxView, call: NodeView)
    ensures
        directive(c, call, "pause"@) == pause(c, call),
{
    lemma_spelled();
    lemma_other_name("pause"@);
    reveal(directive);
}

pub(crate) proof fn is_audio(c: CtxView, call: NodeView)
    ensures
        directive(c, call, "audio"@) == audio(c, call),
{
    lemma_spelled();
    lemma_other_name("audio"@);
    reveal(directive);
}

pub(crate) proof fn is_play(c: CtxView, call: NodeView)
    ensures
        directive(c, call, "play"@) == play(c, call),
{
    lemma_spelled();
    lemma_other_name("play"@);
    reveal(directive);
}

pub(crate) proof fn is_save_state(c: CtxView, call: NodeView)
    ensures
        directive(c, call, "save-state"@) == save_state(c, call),
{
    lemma_spelled();
    lemma_other_name("save-state"@);
    past_directive(c, call, "save-state"@);
    reveal(emphasis_directive);
}

pub(crate) proof fn is_restore(c: CtxView, call: NodeView)
    ensures
        directive(c, call, "restore"@) == restore(c, call),
{
    lemma_spelled();
    lemma_other_name("restore"@);
    past_directive(c, call, "restore"@);
    reveal(emphasis_directive);
}

pub(crate) proof fn is_indicate(c: CtxView, call: NodeView)
    ensures
        directive(c, call, "indicate"@) == indicate(c, call),
{
    lemma_spelled();
    lemma_other_name("indicate"@);
    past_directive(c, call, "indicate"@);
    reveal(emphasis_directive);
}

pub(crate) proof fn is_flash(c: CtxView, call: NodeView)
    ensures
        directive(c, call, "flash"@) == flash(c, call),
{
    lemma_spelled();
    lemma_other_name("flash"@);
    past_directive(c, call, "flash"@);
    reveal(emphasis_directive);
}

pub(crate) proof fn is_wiggle(c: CtxView, call: NodeView)
    ensures
        directive(c, call, "wiggle"@) == wiggle(c, call),
{
    lemma_spelled();
    lemma_other_name("wiggle"@);
    past_directive(c, call, "wiggle"@);
    reveal(emphasis_directive);
}

pub(crate) proof fn is_appear(c: CtxView, call: NodeView)
    ensures
        directive(c, call, "appear"@) == appear_disappear(c, call, true),
{
    lemma_spelled();
    lemma_other_name("appear"@);
    past_directive(c, call, "appear"@);
    reveal(emphasis_directive);
}

pub(crate) proof fn is_disappear(c: CtxView, call: NodeView)
    ensures
        directive(c, call, "disappear"@) == appear_disappear(c, call, false),
{
    lemma_spelled();
    lemma_other_name("disappear"@);
    past_directive(c, call, "disappear"@);
    reveal(emphasis_directive);
}

pub(crate) proof fn is_set_color(c: CtxView, call: NodeView)
    ensures
        directive(c, call, "set-color"@) == set_color(c, call),
{
    lemma_spelled();
    lemma_other_name("set-color"@);
    past_directive(c, call, "set-color"@);
    past_emphasis_directive(c, call, "set-color"@);
    reveal(look_directive);
}

pub(crate) proof fn is_blink(c: CtxView, call: NodeView)
    ensures
        directive(c, call, "blink"@) == blink(c, call),
{
    lemma_spelled();
    lemma_other_name("blink"@);
    past_directive(c, call, "blink"@);
    past_emphasis_directive(c, call, "blink"@);
    reveal(look_directive);
}

pub(crate) proof fn is_spiral_in(c: CtxView, call: NodeView)
    ensures
        directive(c, call, "spiral-in"@) == spiral_in(c, call),
{
    lemma_spelled();
    lemma_other_name("spiral-in"@);
    past_directive(c, call, "spiral-in"@);
    past_emphasis_directive(c, call, "spiral-in"@);
    reveal(look_directive);
}

pub(crate) proof fn is_focus_on(c: CtxView, call: NodeView)
    ensures
        directive(c, call, "focus-on"@) == focus_on(c, call),
{
    lemma_spelled();
    lemma_other_name("focus-on"@);
    past_directive(c, call, "focus-on"@);
    past_emphasis_directive(c, call, "focus-on"@);
    reveal(look_directive);
}

pub(crate) proof fn is_fade_transform(c: CtxView, call: NodeView)
    ensures
        directive(c, call, "fade-transform"@) == fade_transform(c, call),
{
    lemma_spelled();
    lemma_other_name("fade-transform"@);
    past_directive(c, call, "fade-transform"@);
    past_emphasis_directive(c, call, "fade-transform"@);
    reveal(look_directive);
}

pub(crate) proof fn is_move_along_path(c: CtxView, call: NodeView)
    ensures
        directive(c, call, "move-along-path"@) == move_along_path(c, call),
{
    lemma_spelled();
    lemma_other_name("move-along-path"@);
    past_directive(c, call, "move-along-path"@);
    past_emphasis_directive(c, call, "move-along-path"@);
    reveal(look_directive);
}

pub(crate) proof fn is_morph(c: CtxView, call: NodeView)
    ensures
        directive(c, call, "morph"@) == morph(c, call),
{
    lemma_spelled();
    lemma_other_name("morph"@);
    past_directive(c, call, "morph"@);
    past_emphasis_directive(c, call, "morph"@);
    past_look_directive(c, call, "morph"@);
    reveal(content_directive);
}

pub(crate) proof fn is_transform(c: CtxView, call: NodeView)
    ensures
        directive(c, call, "transform"@) == transform(c, call),
{
    lemma_spelled();
    lemma_other_name("transform"@);
    past_directive(c, call, "transform"@);
    past_emphasis_directive(c, call, "transform"@);
    past_look_directive(c, call, "transform"@);
    reveal(content_directive);
}

pub(crate) proof fn is_camera(c: CtxView, call: NodeView)
    ensures
        directive(c, call, "camera"@) == camera(c, call),
{
    lemma_spelled();
    lemma_other_name("camera"@);
    past_directive(c, call, "camera"@);
    past_emphasis_directive(c, call, "camera"@);
    past_look_directive(c, call, "camera"@);
    reveal(content_directive);
}

pub(crate) proof fn is_group(c: CtxView, call: NodeView)
    ensures
        directive(c, call, "group"@) == group(c, call),
{
    lemma_spelled();
    lemma_other_name("group"@);
    past_directive(c, call, "group"@);
    past_emphasis_directive(c, call, "group"@);
    past_look_directive(c, call, "group"@);
    reveal(content_directive);
}

pub(crate) proof fn is_reveal(c: CtxView, call: NodeView)
    ensures
        directive(c, call, "reveal"@) == reveal_text(c, call, false),
{
    lemma_spelled();
    lemma_other_name("reveal"@);
    past_directive(c, call, "reveal"@);
    past_emphasis_directive(c, call, "reveal"@);
    past_look_directive(c, call, "reveal"@);
    past_content_directive(c, call, "reveal"@);
    reveal(text_directive);
}

pub(crate) proof fn is_typewriter(c: CtxView, call: NodeView)
    ensures
        directive(c, call, "typewriter"@) == reveal_text(c, call, true),
{
    lemma_spelled();
    lemma_other_name("typewriter"@);
    past_directive(c, call, "typewriter"@);
    past_emphasis_directive(c, call, "typewriter"@);
    past_look_directive(c, call, "typewriter"@);
    past_content_directive(c, call, "typewriter"@);
    reveal(text_directive);
}

pub(crate) proof fn is_subtitle(c: CtxView, call: NodeView)
    ensures
        directive(c, call, "subtitle"@) == subtitle(c, call),
{
    lemma_spelled();
    lemma_other_name("subtitle"@);
    past_directive(c, call, "subtitle"@);
    past_emphasis_directive(c, call, "subtitle"@);
    past_look_directive(c, call, "subtitle"@);
    past_content_directive(c, call, "subtitle"@);
    reveal(text_directive);
}

pub(crate) proof fn is_scene_switch(c: CtxView, call: NodeView)
    ensures
        directive(c, call, "scene-switch"@) == scene_switch(c, call),
{
    lemma_spelled();
    lemma_other_name("scene-switch"@);
    past_directive(c, call, "scene-switch"@);
    past_emphasis_directive(c, call, "scene-switch"@);
    past_look_directive(c, call, "scene-switch"@);
    past_content_directive(c, call, "scene-switch"@);
    reveal(text_directive);
}

pub(crate) proof fn is_ecnew(c: CtxView, call: NodeView)
    ensures
        directive(c, call, "ecnew"@) == ecnew(c, call),
{
    lemma_spelled();
    lemma_other_name("ecnew"@);
    past_directive(c, call, "ecnew"@);
    past_emphasis_directive(c, call, "ecnew"@);
    past_look_directive(c, call, "ecnew"@);
    past_content_directive(c, call, "ecnew"@);
    past_text_directive(c, call, "ecnew"@);
    reveal(counter_directive);
}

pub(crate) proof fn is_ecpause(c: CtxView, call: NodeView)
    ensures
        directive(c, call, "ecpause"@) == counter_event(c, call, CounterEventKind::Pause, false),
{
    lemma_spelled();
    lemma_other_name("ecpause"@);
    past_directive(c, call, "ecpause"@);
    past_emphasis_directive(c, call, "ecpause"@);
    past_look_directive(c, call, "ecpause"@);
    past_content_directive(c, call, "ecpause"@);
    past_text_directive(c, call, "ecpause"@);
    reveal(counter_directive);
}

pub(crate) proof fn is_ecresume(c: CtxView, call: NodeView)
    ensures
        directive(c, call, "ecresume"@) == counter_event(c, call, CounterEventKind::Resume, false),
{
    lemma_spelled();
    lemma_other_name("ecresume"@);
    past_directive(c, call, "ecresume"@);
    past_emphasis_directive(c, call, "ecresume"@);
    past_look_directive(c, call, "ecresume"@);
    past_content_directive(c, call, "ecresume"@);
    past_text_directive(c, call, "ecresume"@);
    reveal(counter_directive);
}

pub(crate) proof fn is_ecdestroy(c: CtxView, call: NodeView)
    ensures
        directive(c, call, "ecdestroy"@) == counter_event(
            c,
            call,
            CounterEventKind::Destroy,
            false,
        ),
{
    lemma_spelled();
    lemma_other_name("ecdestroy"@);
    past_directive(c, call, "ecdestroy"@);
    past_emphasis_directive(c, call, "ecdestroy"@);
    past_look_directive(c, call, "ecdestroy"@);
    past_content_directive(c, call, "ecdestroy"@);
    past_text_directive(c, call, "ecdestroy"@);
    reveal(counter_directive);
}

pub(crate) proof fn is_kcnew(c: CtxView, call: NodeView)
    ensures
        directive(c, call, "kcnew"@) == kcnew(c, call),
{
    lemma_spelled();
    lemma_other_name("kcnew"@);
    past_directive(c, call, "kcnew"@);
    past_emphasis_directive(c, call, "kcnew"@);
    past_look_directive(c, call, "kcnew"@);
    past_content_directive(c, call, "kcnew"@);
    past_text_directive(c, call, "kcnew"@);
    reveal(counter_directive);
}

pub(crate) proof fn is_kcpush(c: CtxView, call: NodeView)
    ensures
        directive(c, call, "kcpush"@) == kcpush(c, call),
{
    lemma_spelled();
    lemma_other_name("kcpush"@);
    past_directive(c, call, "kcpush"@);
    past_emphasis_directive(c, call, "kcpush"@);
    past_look_directive(c, call, "kcpush"@);
    past_content_directive(c, call, "kcpush"@);
    past_text_directive(c, call, "kcpush"@);
    reveal(counter_directive);
}

pub(crate) proof fn is_kcpause(c: CtxView, call: NodeView)
    ensures
        directive(c, call, "kcpause"@) == counter_event(c, call, CounterEventKind::Pause, true),
{
    lemma_spelled();
    lemma_other_name("kcpause"@);
    past_directive(c, call, "kcpause"@);
    past_emphasis_directive(c, call, "kcpause"@);
    past_look_directive(c, call, "kcpause"@);
    past_content_directive(c, call, "kcpause"@);
    past_text_directive(c, call, "kcpause"@);
    reveal(counter_directive);
}

pub(crate) proof fn is_kcresume(c: CtxView, call: NodeView)
    ensures
        directive(c, call, "kcresume"@) == counter_event(c, call, CounterEventKind::Resume, true),
{
    lemma_spelled();
    lemma_other_name("kcresume"@);
    past_directive(c, call, "kcresume"@);
    past_emphasis_directive(c, call, "kcresume"@);
    past_look_directive(c, call, "kcresume"@);
    past_content_directive(c, call, "kcresume"@);
    past_text_directive(c, call, "kcresume"@);
    reveal(counter_directive);
}

pub(crate) proof fn is_kcdestroy(c: CtxView, call: NodeView)
    ensures
        directive(c, call, "kcdestroy"@) == counter_event(c, call, CounterEventKind::Destroy, true),
{
    lemma_spelled();
    lemma_other_name("kcdestroy"@);
    past_directive(c, call, "kcdestroy"@);
    past_emphasis_directive(c, call, "kcdestroy"@);
    past_look_directive(c, call, "kcdestroy"@);
    past_content_directive(c, call, "kcdestroy"@);
    past_text_directive(c, call, "kcdestroy"@);
    reveal(counter_directive);
}

} // verus!
