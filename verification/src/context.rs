//! What the parser has gathered so far.

use vstd::prelude::*;
use crate::diag::{CandyWarn, Fault, FaultView, WarnView};
use crate::number::Length;
use crate::scene::{
    lemma_seq_view_push, seq_view, ActionView, Action, AudioTrack, AudioTrackView, CounterDef,
    CounterDefView, CounterEvent, CounterEventView, FrameData, FrameDataView, GlobalConfig,
    KeyframeCounterDef, KeyframeCounterView, MorphPair, MorphPairView, SceneInfo, SceneInfoView,
    ScopeInfo, Slide, SlideView, Span, Subtitle, SubtitleView, SwitchView, Switches, Timing,
    TransformPlan, TransformPlanView,
};
use crate::syntax::opt_text;
use crate::table::Table;
use crate::text::{same, texts};

verus! {

broadcast use lemma_seq_view_push;

/// The next number in a row; behind the last one the row starts again.
pub open spec fn next_id(n: usize) -> usize {
    if n == usize::MAX {
        0
    } else {
        (n + 1) as usize
    }
}

/// The next number in a row.
pub fn bump(n: usize) -> (r: usize)
    ensures
        r == next_id(n),
{
    if n == usize::MAX {
        0
    } else {
        n + 1
    }
}

/// The sum of two times, at most the largest one.
pub open spec fn later(t: u32, d: u32) -> u32 {
    if t + d > u32::MAX {
        u32::MAX
    } else {
        (t + d) as u32
    }
}

/// The sum of two times, at most the largest one.
pub fn plus(t: u32, d: u32) -> (r: u32)
    ensures
        r == later(t, d),
{
    t.saturating_add(d)
}

/// A name that was declared in a scope.
#[derive(Debug)]
pub struct ScopedName {
    pub scope: usize,
    pub name: String,
}

impl View for ScopedName {
    type V = (usize, Seq<char>);

    open spec fn view(&self) -> (usize, Seq<char>) {
        (self.scope, self.name@)
    }
}

/// Whether the name was declared in the scope.
pub fn is_declared(names: &Vec<ScopedName>, scope: usize, name: &str) -> (r: bool)
    ensures
        r == seq_view(names@).contains((scope, name@)),
{
    let mut i: usize = 0;
    while i < names.len()
        invariant
            i <= names.len(),
            forall|j: int| 0 <= j < i ==> #[trigger] seq_view(names@)[j] != (scope, name@),
        decreases names.len() - i,
    {
        if names[i].scope == scope && same(names[i].name.as_str(), name) {
            assert(seq_view(names@)[i as int] == (scope, name@));
            return true;
        }
        i += 1;
    }
    false
}

/// Accumulated parse state.
#[derive(Debug)]
pub struct ParseCtx {
    /// The source, with everything that it pulls in.
    pub source: String,
    /// Local name to candy symbol.
    pub symbol_map: Table<String>,
    /// Names that the candy module itself is bound to.
    pub candy_aliases: Vec<String>,
    /// Whether the candy package is imported as a package.
    pub candy_imported: bool,
    pub candy_import_version: Option<String>,
    pub candy_import_loc: Option<Span>,
    /// Whether candy is imported as a file.
    pub file_style_candy_import: bool,
    pub file_style_import_loc: Option<Span>,
    /// Label to source text of the body.
    pub items: Table<String>,
    /// Label to state in the first frame.
    pub initial: Table<FrameData>,
    pub slides: Vec<Slide>,
    pub audio: Vec<AudioTrack>,
    /// End of everything so far: where the next entry starts by default.
    pub cursor: u32,
    /// Start of the last entry.
    pub timeline_start: u32,
    /// End so far of the current entry.
    pub entry_end: u32,
    pub block_counter: usize,
    pub xf_counter: usize,
    pub subtitle_id: usize,
    pub page_size: Option<(Length, Length)>,
    /// Import lines and helper definitions, as source text.
    pub imports: Vec<String>,
    pub content_timeline: Table<Switches>,
    pub morph_pairs: Vec<MorphPair>,
    pub transform_plans: Vec<TransformPlan>,
    /// Open scopes, the innermost last.
    pub scope_stack: Vec<usize>,
    pub next_scope_id: usize,
    pub subtitles: Vec<Subtitle>,
    pub counters: Vec<CounterDef>,
    pub counter_events: Vec<CounterEvent>,
    pub mobject_names: Vec<ScopedName>,
    pub ecnew_names: Vec<ScopedName>,
    pub kcnew_names: Vec<ScopedName>,
    pub kcdefs: Vec<KeyframeCounterDef>,
    pub kc_events: Vec<CounterEvent>,
    /// The first error that the document was found to have.
    pub pending_error: Option<Fault>,
    pub label_locs: Table<Span>,
    pub name_ref_locs: Table<Span>,
    pub scene_switch_locs: Table<Span>,
    /// The directive that is being processed.
    pub current_directive_loc: Option<Span>,
    /// Scopes that are closed.
    pub scopes: Vec<ScopeInfo>,
    pub scenes: Vec<SceneInfo>,
    /// Child to parent.
    pub groups: Table<String>,
    pub next_scene_id: usize,
    /// Open scenes, the innermost last.
    pub scene_stack: Vec<usize>,
    pub current_scene: usize,
    /// Label to scene.
    pub label_scene: Table<usize>,
    /// All labels, in the order in which they were first declared.
    pub label_order: Vec<String>,
    pub mobject_body_ranges: Table<Span>,
    /// Scene and the source of the call that declares it.
    pub scene_call_ranges: Vec<(usize, Span)>,
    pub subtitle_call_ranges: Table<Span>,
    pub config: GlobalConfig,
    pub candy_show_rule_seen: bool,
    pub warnings: Vec<CandyWarn>,
}

/// The value of a [`ParseCtx`].
#[verifier::ext_equal]
pub struct CtxView {
    pub source: Seq<char>,
    pub symbol_map: Map<Seq<char>, Seq<char>>,
    pub candy_aliases: Seq<Seq<char>>,
    pub candy_imported: bool,
    pub candy_import_version: Option<Seq<char>>,
    pub candy_import_loc: Option<Span>,
    pub file_style_candy_import: bool,
    pub file_style_import_loc: Option<Span>,
    pub items: Map<Seq<char>, Seq<char>>,
    pub initial: Map<Seq<char>, FrameDataView>,
    pub slides: Seq<SlideView>,
    pub audio: Seq<AudioTrackView>,
    pub cursor: u32,
    pub timeline_start: u32,
    pub entry_end: u32,
    pub block_counter: usize,
    pub xf_counter: usize,
    pub subtitle_id: usize,
    pub page_size: Option<(Length, Length)>,
    pub imports: Seq<Seq<char>>,
    pub content_timeline: Map<Seq<char>, Seq<SwitchView>>,
    pub morph_pairs: Seq<MorphPairView>,
    pub transform_plans: Seq<TransformPlanView>,
    pub scope_stack: Seq<usize>,
    pub next_scope_id: usize,
    pub subtitles: Seq<SubtitleView>,
    pub counters: Seq<CounterDefView>,
    pub counter_events: Seq<CounterEventView>,
    pub mobject_names: Seq<(usize, Seq<char>)>,
    pub ecnew_names: Seq<(usize, Seq<char>)>,
    pub kcnew_names: Seq<(usize, Seq<char>)>,
    pub kcdefs: Seq<KeyframeCounterView>,
    pub kc_events: Seq<CounterEventView>,
    pub pending_error: Option<FaultView>,
    pub label_locs: Map<Seq<char>, Span>,
    pub name_ref_locs: Map<Seq<char>, Span>,
    pub scene_switch_locs: Map<Seq<char>, Span>,
    pub current_directive_loc: Option<Span>,
    pub scopes: Seq<ScopeInfo>,
    pub scenes: Seq<SceneInfoView>,
    pub groups: Map<Seq<char>, Seq<char>>,
    pub next_scene_id: usize,
    pub scene_stack: Seq<usize>,
    pub current_scene: usize,
    pub label_scene: Map<Seq<char>, usize>,
    pub label_order: Seq<Seq<char>>,
    pub mobject_body_ranges: Map<Seq<char>, Span>,
    pub scene_call_ranges: Seq<(usize, Span)>,
    pub subtitle_call_ranges: Map<Seq<char>, Span>,
    pub config: GlobalConfig,
    pub candy_show_rule_seen: bool,
    pub warnings: Seq<WarnView>,
}

/// The value of an optional fault.
pub open spec fn opt_fault(f: Option<Fault>) -> Option<FaultView> {
    match f {
        Some(f) => Some(f@),
        None => None,
    }
}

impl View for ParseCtx {
    type V = CtxView;

    open spec fn view(&self) -> CtxView {
        CtxView {
            source: self.source@,
            symbol_map: self.symbol_map@,
            candy_aliases: texts(self.candy_aliases@),
            candy_imported: self.candy_imported,
            candy_import_version: opt_text(self.candy_import_version),
            candy_import_loc: self.candy_import_loc,
            file_style_candy_import: self.file_style_candy_import,
            file_style_import_loc: self.file_style_import_loc,
            items: self.items@,
            initial: self.initial@,
            slides: seq_view(self.slides@),
            audio: seq_view(self.audio@),
            cursor: self.cursor,
            timeline_start: self.timeline_start,
            entry_end: self.entry_end,
            block_counter: self.block_counter,
            xf_counter: self.xf_counter,
            subtitle_id: self.subtitle_id,
            page_size: self.page_size,
            imports: texts(self.imports@),
            content_timeline: self.content_timeline@,
            morph_pairs: seq_view(self.morph_pairs@),
            transform_plans: seq_view(self.transform_plans@),
            scope_stack: self.scope_stack@,
            next_scope_id: self.next_scope_id,
            subtitles: seq_view(self.subtitles@),
            counters: seq_view(self.counters@),
            counter_events: seq_view(self.counter_events@),
            mobject_names: seq_view(self.mobject_names@),
            ecnew_names: seq_view(self.ecnew_names@),
            kcnew_names: seq_view(self.kcnew_names@),
            kcdefs: seq_view(self.kcdefs@),
            kc_events: seq_view(self.kc_events@),
            pending_error: opt_fault(self.pending_error),
            label_locs: self.label_locs@,
            name_ref_locs: self.name_ref_locs@,
            scene_switch_locs: self.scene_switch_locs@,
            current_directive_loc: self.current_directive_loc,
            scopes: self.scopes@,
            scenes: seq_view(self.scenes@),
            groups: self.groups@,
            next_scene_id: self.next_scene_id,
            scene_stack: self.scene_stack@,
            current_scene: self.current_scene,
            label_scene: self.label_scene@,
            label_order: texts(self.label_order@),
            mobject_body_ranges: self.mobject_body_ranges@,
            scene_call_ranges: self.scene_call_ranges@,
            subtitle_call_ranges: self.subtitle_call_ranges@,
            config: self.config,
            candy_show_rule_seen: self.candy_show_rule_seen,
            warnings: seq_view(self.warnings@),
        }
    }
}

// ---------------------------------------------------------------- the timeline

impl CtxView {
    /// When an entry with the given timing starts.
    pub open spec fn start_of(self, timing: Option<Timing>, delay: u32) -> u32 {
        match timing {
            Some(Timing::With) => later(self.timeline_start, delay),
            _ => later(self.cursor, delay),
        }
    }

    /// The state with a new entry open.
    pub open spec fn opened(self, timing: Option<Timing>, delay: u32) -> CtxView {
        let start = self.start_of(timing, delay);
        CtxView { timeline_start: start, entry_end: start, ..self }
    }

    /// The state with the current entry longer by `duration`.
    pub open spec fn advanced(self, duration: u32) -> CtxView {
        CtxView { entry_end: later(self.entry_end, duration), ..self }
    }

    /// The state with the current entry closed: the timeline reaches to the furthest end.
    pub open spec fn closed(self) -> CtxView {
        CtxView {
            cursor: if self.cursor >= self.entry_end {
                self.cursor
            } else {
                self.entry_end
            },
            ..self
        }
    }

    /// The state with one more slide.
    pub open spec fn with_slide(self, s: SlideView) -> CtxView {
        CtxView { slides: self.slides.push(s), ..self }
    }

    /// The state with a slide at the end so far of the current entry, and the entry longer by it.
    pub open spec fn continued(self, duration: u32, actions: Seq<ActionView>) -> CtxView {
        self.with_slide(
            SlideView { start_ms: self.entry_end, duration_ms: duration, actions, loc: None },
        ).advanced(duration)
    }

    /// The state with one more entry of a single slide.
    pub open spec fn emitted(
        self,
        timing: Option<Timing>,
        delay: u32,
        duration: u32,
        actions: Seq<ActionView>,
    ) -> CtxView {
        self.opened(timing, delay).with_slide(
            SlideView {
                start_ms: self.start_of(timing, delay),
                duration_ms: duration,
                actions,
                loc: self.current_directive_loc,
            },
        ).advanced(duration).closed()
    }

    /// The state with a fault found. The first fault is the one that is reported.
    pub open spec fn failed(self, f: FaultView) -> CtxView {
        if self.pending_error is Some {
            self
        } else {
            CtxView { pending_error: Some(f), ..self }
        }
    }

    /// The state with a warning given.
    pub open spec fn warned(self, w: WarnView) -> CtxView {
        CtxView { warnings: self.warnings.push(w), ..self }
    }

    /// The state with `label` owned by `scene`; a new label comes last in the order.
    pub open spec fn registered(self, label: Seq<char>, scene: usize) -> CtxView {
        CtxView {
            label_order: if self.label_scene.contains_key(label) {
                self.label_order
            } else {
                self.label_order.push(label)
            },
            label_scene: self.label_scene.insert(label, scene),
            ..self
        }
    }

    /// The state with the body of a mobject recorded.
    pub open spec fn with_item(self, label: Seq<char>, body: Seq<char>) -> CtxView {
        CtxView { items: self.items.insert(label, body), ..self }
    }

    /// The state with the first frame of a mobject recorded.
    pub open spec fn with_initial(self, label: Seq<char>, opacity: i64) -> CtxView {
        CtxView {
            initial: self.initial.insert(label, crate::scene::resting(label, opacity)),
            ..self
        }
    }

    /// The innermost open scope.
    pub open spec fn scope(self) -> usize {
        if self.scope_stack.len() > 0 {
            self.scope_stack.last()
        } else {
            0
        }
    }

    /// Where a warning about the current directive points.
    pub open spec fn here(self) -> Span {
        match self.current_directive_loc {
            Some(s) => s,
            None => Span { start: 0, end: 0 },
        }
    }
}

impl ParseCtx {
    /// Begins a new entry and returns its start time.
    ///
    /// `With` starts it together with the previous entry, anything else at the end of all
    /// entries so far; `delay` is added.
    pub fn entry_start(&mut self, timing: Option<Timing>, delay: u32) -> (start: u32)
        ensures
            final(self)@ == old(self)@.opened(timing, delay),
            start == old(self)@.start_of(timing, delay),
    {
        let start: u32 = match timing {
            Some(Timing::With) => plus(self.timeline_start, delay),
            _ => plus(self.cursor, delay),
        };
        self.timeline_start = start;
        self.entry_end = start;
        start
    }

    /// Makes the current entry longer by `duration`.
    pub fn entry_advance(&mut self, duration: u32)
        ensures
            final(self)@ == old(self)@.advanced(duration),
    {
        self.entry_end = plus(self.entry_end, duration);
    }

    /// Closes the current entry: the timeline reaches to the furthest end seen so far.
    pub fn entry_close(&mut self)
        ensures
            final(self)@ == old(self)@.closed(),
    {
        if self.cursor < self.entry_end {
            self.cursor = self.entry_end;
        }
    }

    /// When an audio track starts. Audio plays alongside and does not move the timeline.
    pub fn audio_start(&self, timing: Option<Timing>, delay: u32) -> (start: u32)
        ensures
            start == self@.start_of(timing, delay),
    {
        match timing {
            Some(Timing::With) => plus(self.timeline_start, delay),
            _ => plus(self.cursor, delay),
        }
    }

    /// Adds a slide.
    pub fn push_slide(&mut self, s: Slide)
        ensures
            final(self)@ == old(self)@.with_slide(s@),
    {
        self.slides.push(s);
    }

    /// Adds a slide at the end so far of the current entry.
    pub fn continue_entry(&mut self, duration: u32, actions: Vec<Action>)
        ensures
            final(self)@ == old(self)@.continued(duration, seq_view(actions@)),
    {
        let start: u32 = self.entry_end;
        self.push_slide(Slide { start_ms: start, duration_ms: duration, actions, loc: None });
        self.entry_advance(duration);
    }

    /// Adds an entry of a single slide.
    pub fn emit_slide(
        &mut self,
        timing: Option<Timing>,
        delay: u32,
        duration: u32,
        actions: Vec<Action>,
    )
        ensures
            final(self)@ == old(self)@.emitted(timing, delay, duration, seq_view(actions@)),
    {
        let start: u32 = self.entry_start(timing, delay);
        let loc = self.current_directive_loc;
        self.push_slide(Slide { start_ms: start, duration_ms: duration, actions, loc });
        self.entry_advance(duration);
        self.entry_close();
    }

    /// Records a fault, unless there is one already.
    pub fn fail(&mut self, f: Fault)
        ensures
            final(self)@ == old(self)@.failed(f@),
    {
        if self.pending_error.is_none() {
            self.pending_error = Some(f);
        }
    }

    /// Records a warning.
    pub fn warn(&mut self, w: CandyWarn)
        ensures
            final(self)@ == old(self)@.warned(w@),
    {
        self.warnings.push(w);
    }

    /// Makes `scene` the owner of `label`.
    pub fn register_label(&mut self, label: &str, scene: usize)
        ensures
            final(self)@ == old(self)@.registered(label@, scene),
    {
        if !self.label_scene.contains_key(label) {
            self.label_order.push(label.to_owned());
            assert(texts(self.label_order@) =~= texts(old(self).label_order@).push(label@));
        }
        self.label_scene.insert(label.to_owned(), scene);
    }

    /// Records the body of a mobject.
    pub fn set_item(&mut self, label: &str, body: String)
        ensures
            final(self)@ == old(self)@.with_item(label@, body@),
    {
        self.items.insert(label.to_owned(), body);
    }

    /// Records the first frame of a mobject.
    pub fn set_initial(&mut self, label: &str, opacity: i64)
        ensures
            final(self)@ == old(self)@.with_initial(label@, opacity),
    {
        self.initial.insert(label.to_owned(), crate::scene::at_rest(label, opacity));
    }

    /// The innermost open scope.
    pub fn current_scope(&self) -> (r: usize)
        ensures
            r == self@.scope(),
    {
        if self.scope_stack.len() > 0 {
            self.scope_stack[self.scope_stack.len() - 1]
        } else {
            0
        }
    }

    /// Where a warning about the current directive points.
    pub fn here(&self) -> (r: Span)
        ensures
            r == self@.here(),
    {
        match self.current_directive_loc {
            Some(s) => s,
            None => Span { start: 0, end: 0 },
        }
    }
}

} // verus!
