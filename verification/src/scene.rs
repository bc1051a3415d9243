//! What a document says: slides with their actions, mobjects, counters, scenes.

use vstd::prelude::*;
use vstd::string::*;
use crate::diag::{CandyError, ErrorView};
use crate::easing::Easing;
use crate::expr::TrackKey;
use crate::number::{Angle, Length, Number, Ratio};
use crate::syntax::opt_text;
use crate::text::{same, texts};

verus! {

/// The values of a list.
pub open spec fn seq_view<T: View>(s: Seq<T>) -> Seq<T::V> {
    s.map_values(|x: T| x@)
}

/// Appending to a list appends to its values.
pub broadcast proof fn lemma_seq_view_push<T: View>(s: Seq<T>, x: T)
    ensures
        #[trigger] seq_view(s.push(x)) == seq_view(s).push(x@),
{
    assert(seq_view(s.push(x)) =~= seq_view(s).push(x@));
}

/// A byte range of the source.
#[derive(Debug, Clone, Copy, PartialEq, Eq, Structural)]
pub struct Span {
    pub start: usize,
    pub end: usize,
}

impl View for Span {
    type V = Span;

    open spec fn view(&self) -> Span {
        *self
    }
}

/// When an animation starts.
#[derive(Debug, Clone, Copy, PartialEq, Eq, Structural)]
pub enum Timing {
    /// Together with the animation before it.
    With,
    /// After everything before it.
    After,
}

/// How a path runs through its points.
#[derive(Debug, Clone, Copy, PartialEq, Eq, Structural)]
pub enum PathMode {
    Polyline,
    Bezier,
}

/// What a slide does to a mobject.
#[derive(Debug)]
pub enum Action {
    MoveTo { target: String, to: (Length, Length), easing: Easing },
    MoveBy { target: String, delta: (Number, Number), easing: Easing },
    Scale { target: String, to: Ratio, easing: Easing },
    ScaleBy { target: String, factor: Ratio, easing: Easing },
    Rotate { target: String, degrees: Angle, easing: Easing },
    RotateBy { target: String, delta_degrees: Angle, easing: Easing },
    FadeTo { target: String, opacity: Ratio, easing: Easing },
    FadeIn { target: String, easing: Easing },
    FadeOut { target: String, easing: Easing },
    Hide { target: String },
    Show { target: String },
    SaveState { target: String, slot: String },
    Restore { target: String, slot: String, easing: Easing },
    Indicate { target: String, factor: Ratio, dx: Number, dy: Number, easing: Easing },
    Flash { target: String, factor: Ratio, easing: Easing },
    Wiggle { target: String, degrees: Angle, easing: Easing },
    SetColor { target: String, color: String, easing: Easing },
    MoveAlongPath {
        target: String,
        points: Vec<(Length, Length)>,
        mode: PathMode,
        orient: bool,
        easing: Easing,
    },
    Track { target: String, keyframes: Vec<TrackKey>, easing: Easing },
    Camera { target: String, x: Number, y: Number, zoom: Ratio, rotate: Angle, easing: Easing },
    Transform { target: String, old: String, easing: Easing },
    SceneSwitch { target: String, duration_ms: u32, easing: Easing },
}

/// The value of an [`Action`].
pub enum ActionView {
    MoveTo { target: Seq<char>, to: (Length, Length), easing: Easing },
    MoveBy { target: Seq<char>, delta: (Number, Number), easing: Easing },
    Scale { target: Seq<char>, to: Ratio, easing: Easing },
    ScaleBy { target: Seq<char>, factor: Ratio, easing: Easing },
    Rotate { target: Seq<char>, degrees: Angle, easing: Easing },
    RotateBy { target: Seq<char>, delta_degrees: Angle, easing: Easing },
    FadeTo { target: Seq<char>, opacity: Ratio, easing: Easing },
    FadeIn { target: Seq<char>, easing: Easing },
    FadeOut { target: Seq<char>, easing: Easing },
    Hide { target: Seq<char> },
    Show { target: Seq<char> },
    SaveState { target: Seq<char>, slot: Seq<char> },
    Restore { target: Seq<char>, slot: Seq<char>, easing: Easing },
    Indicate { target: Seq<char>, factor: Ratio, dx: Number, dy: Number, easing: Easing },
    Flash { target: Seq<char>, factor: Ratio, easing: Easing },
    Wiggle { target: Seq<char>, degrees: Angle, easing: Easing },
    SetColor { target: Seq<char>, color: Seq<char>, easing: Easing },
    MoveAlongPath {
        target: Seq<char>,
        points: Seq<(Length, Length)>,
        mode: PathMode,
        orient: bool,
        easing: Easing,
    },
    Track { target: Seq<char>, keyframes: Seq<TrackKey>, easing: Easing },
    Camera { target: Seq<char>, x: Number, y: Number, zoom: Ratio, rotate: Angle, easing: Easing },
    Transform { target: Seq<char>, old: Seq<char>, easing: Easing },
    SceneSwitch { target: Seq<char>, duration_ms: u32, easing: Easing },
}

impl View for Action {
    type V = ActionView;

    open spec fn view(&self) -> ActionView {
        match *self {
            Action::MoveTo { target, to, easing } => ActionView::MoveTo {
                target: target@,
                to,
                easing,
            },
            Action::MoveBy { target, delta, easing } => ActionView::MoveBy {
                target: target@,
                delta,
                easing,
            },
            Action::Scale { target, to, easing } => ActionView::Scale {
                target: target@,
                to,
                easing,
            },
            Action::ScaleBy { target, factor, easing } => ActionView::ScaleBy {
                target: target@,
                factor,
                easing,
            },
            Action::Rotate { target, degrees, easing } => ActionView::Rotate {
                target: target@,
                degrees,
                easing,
            },
            Action::RotateBy { target, delta_degrees, easing } => ActionView::RotateBy {
                target: target@,
                delta_degrees,
                easing,
            },
            Action::FadeTo { target, opacity, easing } => ActionView::FadeTo {
                target: target@,
                opacity,
                easing,
            },
            Action::FadeIn { target, easing } => ActionView::FadeIn { target: target@, easing },
            Action::FadeOut { target, easing } => ActionView::FadeOut { target: target@, easing },
            Action::Hide { target } => ActionView::Hide { target: target@ },
            Action::Show { target } => ActionView::Show { target: target@ },
            Action::SaveState { target, slot } => ActionView::SaveState {
                target: target@,
                slot: slot@,
            },
            Action::Restore { target, slot, easing } => ActionView::Restore {
                target: target@,
                slot: slot@,
                easing,
            },
            Action::Indicate { target, factor, dx, dy, easing } => ActionView::Indicate {
                target: target@,
                factor,
                dx,
                dy,
                easing,
            },
            Action::Flash { target, factor, easing } => ActionView::Flash {
                target: target@,
                factor,
                easing,
            },
            Action::Wiggle { target, degrees, easing } => ActionView::Wiggle {
                target: target@,
                degrees,
                easing,
            },
            Action::SetColor { target, color, easing } => ActionView::SetColor {
                target: target@,
                color: color@,
                easing,
            },
            Action::MoveAlongPath { target, points, mode, orient, easing } =>
            ActionView::MoveAlongPath { target: target@, points: points@, mode, orient, easing },
            Action::Track { target, keyframes, easing } => ActionView::Track {
                target: target@,
                keyframes: keyframes@,
                easing,
            },
            Action::Camera { target, x, y, zoom, rotate, easing } => ActionView::Camera {
                target: target@,
                x,
                y,
                zoom,
                rotate,
                easing,
            },
            Action::Transform { target, old, easing } => ActionView::Transform {
                target: target@,
                old: old@,
                easing,
            },
            Action::SceneSwitch { target, duration_ms, easing } => ActionView::SceneSwitch {
                target: target@,
                duration_ms,
                easing,
            },
        }
    }
}

impl ActionView {
    /// The mobject that an action is about. A scene switch is about none.
    pub open spec fn subject(self) -> Option<Seq<char>> {
        match self {
            ActionView::MoveTo { target, .. } => Some(target),
            ActionView::MoveBy { target, .. } => Some(target),
            ActionView::Scale { target, .. } => Some(target),
            ActionView::ScaleBy { target, .. } => Some(target),
            ActionView::Rotate { target, .. } => Some(target),
            ActionView::RotateBy { target, .. } => Some(target),
            ActionView::FadeTo { target, .. } => Some(target),
            ActionView::FadeIn { target, .. } => Some(target),
            ActionView::FadeOut { target, .. } => Some(target),
            ActionView::Hide { target } => Some(target),
            ActionView::Show { target } => Some(target),
            ActionView::SaveState { target, .. } => Some(target),
            ActionView::Restore { target, .. } => Some(target),
            ActionView::Indicate { target, .. } => Some(target),
            ActionView::Flash { target, .. } => Some(target),
            ActionView::Wiggle { target, .. } => Some(target),
            ActionView::SetColor { target, .. } => Some(target),
            ActionView::MoveAlongPath { target, .. } => Some(target),
            ActionView::Track { target, .. } => Some(target),
            ActionView::Camera { target, .. } => Some(target),
            ActionView::Transform { target, .. } => Some(target),
            ActionView::SceneSwitch { .. } => None,
        }
    }
}

impl Action {
    /// The mobject that the action is about.
    pub fn target(&self) -> (r: Option<&String>)
        ensures
            match r {
                Some(t) => self@.subject() == Some(t@),
                None => self@.subject() is None,
            },
    {
        match self {
            Action::MoveTo { target, .. } => Some(target),
            Action::MoveBy { target, .. } => Some(target),
            Action::Scale { target, .. } => Some(target),
            Action::ScaleBy { target, .. } => Some(target),
            Action::Rotate { target, .. } => Some(target),
            Action::RotateBy { target, .. } => Some(target),
            Action::FadeTo { target, .. } => Some(target),
            Action::FadeIn { target, .. } => Some(target),
            Action::FadeOut { target, .. } => Some(target),
            Action::Hide { target } => Some(target),
            Action::Show { target } => Some(target),
            Action::SaveState { target, .. } => Some(target),
            Action::Restore { target, .. } => Some(target),
            Action::Indicate { target, .. } => Some(target),
            Action::Flash { target, .. } => Some(target),
            Action::Wiggle { target, .. } => Some(target),
            Action::SetColor { target, .. } => Some(target),
            Action::MoveAlongPath { target, .. } => Some(target),
            Action::Track { target, .. } => Some(target),
            Action::Camera { target, .. } => Some(target),
            Action::Transform { target, .. } => Some(target),
            Action::SceneSwitch { .. } => None,
        }
    }
}

/// A stretch of the timeline with its actions.
#[derive(Debug)]
pub struct Slide {
    pub start_ms: u32,
    pub duration_ms: u32,
    pub actions: Vec<Action>,
    /// The directive that made the slide.
    pub loc: Option<Span>,
}

/// The value of a [`Slide`].
pub struct SlideView {
    pub start_ms: u32,
    pub duration_ms: u32,
    pub actions: Seq<ActionView>,
    pub loc: Option<Span>,
}

impl View for Slide {
    type V = SlideView;

    open spec fn view(&self) -> SlideView {
        SlideView {
            start_ms: self.start_ms,
            duration_ms: self.duration_ms,
            actions: seq_view(self.actions@),
            loc: self.loc,
        }
    }
}

/// Whether any action of any slide is about the mobject.
pub open spec fn acted_on(slides: Seq<SlideView>, label: Seq<char>) -> bool {
    exists|i: int, j: int|
        0 <= i < slides.len() && 0 <= j < slides[i].actions.len() && (
        #[trigger] slides[i].actions[j]).subject() == Some(label)
}

/// Whether any action of any slide is about the mobject.
pub fn is_acted_on(slides: &Vec<Slide>, label: &str) -> (r: bool)
    ensures
        r == acted_on(seq_view(slides@), label@),
{
    let ghost sv = seq_view(slides@);
    let mut i: usize = 0;
    while i < slides.len()
        invariant
            i <= slides.len(),
            sv == seq_view(slides@),
            forall|x: int, y: int|
                0 <= x < i && 0 <= y < sv[x].actions.len() ==> (
                #[trigger] sv[x].actions[y]).subject() != Some(label@),
        decreases slides.len() - i,
    {
        let actions = &slides[i].actions;
        assert(sv[i as int].actions == seq_view(actions@));
        let mut j: usize = 0;
        while j < actions.len()
            invariant
                i < slides.len(),
                j <= actions.len(),
                sv == seq_view(slides@),
                sv[i as int].actions == seq_view(actions@),
                forall|y: int|
                    0 <= y < j ==> (#[trigger] sv[i as int].actions[y]).subject() != Some(label@),
            decreases actions.len() - j,
        {
            assert(sv[i as int].actions[j as int] == actions@[j as int]@);
            if let Some(t) = actions[j].target() {
                if same(t.as_str(), label) {
                    return true;
                }
            }
            j += 1;
        }
        i += 1;
    }
    false
}

/// Whether every slide lasts at least a millisecond.
pub open spec fn lasting(slides: Seq<SlideView>) -> bool {
    forall|i: int| 0 <= i < slides.len() ==> (#[trigger] slides[i]).duration_ms >= 1
}

/// Refuses slides that take no time.
pub fn check_slides(slides: &Vec<Slide>) -> (r: Result<(), CandyError>)
    ensures
        match r {
            Ok(_) => lasting(seq_view(slides@)),
            Err(e) => !lasting(seq_view(slides@)) && e@ == ErrorView::Parse(
                "duration_ms of a slide must be >= 1"@,
                None,
            ),
        },
{
    let ghost s = seq_view(slides@);
    let mut i: usize = 0;
    while i < slides.len()
        invariant
            i <= slides@.len(),
            s == seq_view(slides@),
            forall|k: int| 0 <= k < i ==> (#[trigger] s[k]).duration_ms >= 1,
        decreases slides.len() - i,
    {
        assert(s[i as int] == slides@[i as int]@);
        if slides[i].duration_ms < 1 {
            return Err(
                CandyError::Parse("duration_ms of a slide must be >= 1".to_owned(), None),
            );
        }
        i += 1;
    }
    Ok(())
}


/// The state of a mobject in the first frame.
#[derive(Debug)]
pub struct FrameData {
    pub time_ms: u32,
    pub target: String,
    pub x: Number,
    pub y: Number,
    pub scale: Number,
    pub opacity: Number,
    pub rotation: Number,
    pub easing: Easing,
}

/// The value of a [`FrameData`].
pub struct FrameDataView {
    pub time_ms: u32,
    pub target: Seq<char>,
    pub x: Number,
    pub y: Number,
    pub scale: Number,
    pub opacity: Number,
    pub rotation: Number,
    pub easing: Easing,
}

impl View for FrameData {
    type V = FrameDataView;

    open spec fn view(&self) -> FrameDataView {
        FrameDataView {
            time_ms: self.time_ms,
            target: self.target@,
            x: self.x,
            y: self.y,
            scale: self.scale,
            opacity: self.opacity,
            rotation: self.rotation,
            easing: self.easing,
        }
    }
}

/// The state of a mobject at rest, shown (opacity 1) or hidden (opacity 0).
pub open spec fn resting(label: Seq<char>, opacity: i64) -> FrameDataView {
    FrameDataView {
        time_ms: 0,
        target: label,
        x: Number::Int(0),
        y: Number::Int(0),
        scale: Number::Int(1),
        opacity: Number::Int(opacity),
        rotation: Number::Int(0),
        easing: Easing::Linear,
    }
}

/// The state of a mobject at rest, shown (opacity 1) or hidden (opacity 0).
pub fn at_rest(label: &str, opacity: i64) -> (r: FrameData)
    ensures
        r@ == resting(label@, opacity),
{
    FrameData {
        time_ms: 0,
        target: label.to_owned(),
        x: Number::Int(0),
        y: Number::Int(0),
        scale: Number::Int(1),
        opacity: Number::Int(opacity),
        rotation: Number::Int(0),
        easing: Easing::Linear,
    }
}

/// An audio track.
#[derive(Debug)]
pub struct AudioTrack {
    pub path: String,
    pub start_ms: u32,
    pub blocking: bool,
    pub loop_track: bool,
    pub volume: Number,
    /// Start and end of the part that is played, in seconds.
    pub slice: Option<(Length, Length)>,
}

/// The value of an [`AudioTrack`].
pub struct AudioTrackView {
    pub path: Seq<char>,
    pub start_ms: u32,
    pub blocking: bool,
    pub loop_track: bool,
    pub volume: Number,
    pub slice: Option<(Length, Length)>,
}

impl View for AudioTrack {
    type V = AudioTrackView;

    open spec fn view(&self) -> AudioTrackView {
        AudioTrackView {
            path: self.path@,
            start_ms: self.start_ms,
            blocking: self.blocking,
            loop_track: self.loop_track,
            volume: self.volume,
            slice: self.slice,
        }
    }
}

/// From `at_ms` on a mobject shows `body`.
#[derive(Debug)]
pub struct ContentSwitch {
    pub at_ms: u32,
    pub body: String,
}

/// The value of a [`ContentSwitch`].
pub struct SwitchView {
    pub at_ms: u32,
    pub body: Seq<char>,
}

impl View for ContentSwitch {
    type V = SwitchView;

    open spec fn view(&self) -> SwitchView {
        SwitchView { at_ms: self.at_ms, body: self.body@ }
    }
}

/// The content switches of one mobject.
#[derive(Debug)]
pub struct Switches {
    pub list: Vec<ContentSwitch>,
}

impl View for Switches {
    type V = Seq<SwitchView>;

    open spec fn view(&self) -> Seq<SwitchView> {
        seq_view(self.list@)
    }
}

impl Switches {
    /// The same switches again.
    pub fn duplicate(&self) -> (r: Switches)
        ensures
            r@ == self@,
    {
        let mut list: Vec<ContentSwitch> = Vec::new();
        let mut i: usize = 0;
        while i < self.list.len()
            invariant
                i <= self.list.len(),
                list@.len() == i,
                forall|j: int| 0 <= j < i ==> (#[trigger] list@[j])@ == self.list@[j]@,
            decreases self.list.len() - i,
        {
            list.push(
                ContentSwitch { at_ms: self.list[i].at_ms, body: self.list[i].body.clone() },
            );
            i += 1;
        }
        assert(seq_view(list@) =~= seq_view(self.list@));
        Switches { list }
    }
}

/// A shape that turns into another one.
#[derive(Debug)]
pub struct MorphPair {
    pub from: String,
    pub to: String,
    pub to_body: Option<String>,
    pub start_ms: u32,
    pub end_ms: u32,
    pub easing: Easing,
}

/// The value of a [`MorphPair`].
pub struct MorphPairView {
    pub from: Seq<char>,
    pub to: Seq<char>,
    pub to_body: Option<Seq<char>>,
    pub start_ms: u32,
    pub end_ms: u32,
    pub easing: Easing,
}

impl View for MorphPair {
    type V = MorphPairView;

    open spec fn view(&self) -> MorphPairView {
        MorphPairView {
            from: self.from@,
            to: self.to@,
            to_body: opt_text(self.to_body),
            start_ms: self.start_ms,
            end_ms: self.end_ms,
            easing: self.easing,
        }
    }
}

/// Inline content that turns into other inline content, glyph by glyph.
#[derive(Debug)]
pub struct TransformPlan {
    pub target: String,
    pub old: String,
    pub old_body: String,
    pub new_body: String,
    pub start_ms: u32,
    pub end_ms: u32,
    pub easing: Easing,
}

/// The value of a [`TransformPlan`].
pub struct TransformPlanView {
    pub target: Seq<char>,
    pub old: Seq<char>,
    pub old_body: Seq<char>,
    pub new_body: Seq<char>,
    pub start_ms: u32,
    pub end_ms: u32,
    pub easing: Easing,
}

impl View for TransformPlan {
    type V = TransformPlanView;

    open spec fn view(&self) -> TransformPlanView {
        TransformPlanView {
            target: self.target@,
            old: self.old@,
            old_body: self.old_body@,
            new_body: self.new_body@,
            start_ms: self.start_ms,
            end_ms: self.end_ms,
            easing: self.easing,
        }
    }
}

/// Where a subtitle stands.
#[derive(Debug, Clone, Copy, PartialEq, Eq, Structural)]
pub enum SubPos {
    Bottom,
    Top,
    Center,
    BottomLeft,
    BottomRight,
    TopLeft,
    TopRight,
    Absolute(Length, Length),
}

/// A caption.
#[derive(Debug)]
pub struct Subtitle {
    pub id: String,
    pub scope: usize,
    pub body: String,
    pub start_ms: u32,
    pub end_ms: Option<u32>,
    pub position: SubPos,
    pub easing: Easing,
}

/// The value of a [`Subtitle`].
pub struct SubtitleView {
    pub id: Seq<char>,
    pub scope: usize,
    pub body: Seq<char>,
    pub start_ms: u32,
    pub end_ms: Option<u32>,
    pub position: SubPos,
    pub easing: Easing,
}

impl View for Subtitle {
    type V = SubtitleView;

    open spec fn view(&self) -> SubtitleView {
        SubtitleView {
            id: self.id@,
            scope: self.scope,
            body: self.body@,
            start_ms: self.start_ms,
            end_ms: self.end_ms,
            position: self.position,
            easing: self.easing,
        }
    }
}

/// An easing counter.
#[derive(Debug)]
pub struct CounterDef {
    pub name: String,
    pub scope: usize,
    pub seed: i64,
    pub step: i64,
    pub duration_ms: Option<u32>,
    pub easing: Easing,
    pub start_ms: u32,
}

/// The value of a [`CounterDef`].
pub struct CounterDefView {
    pub name: Seq<char>,
    pub scope: usize,
    pub seed: i64,
    pub step: i64,
    pub duration_ms: Option<u32>,
    pub easing: Easing,
    pub start_ms: u32,
}

impl View for CounterDef {
    type V = CounterDefView;

    open spec fn view(&self) -> CounterDefView {
        CounterDefView {
            name: self.name@,
            scope: self.scope,
            seed: self.seed,
            step: self.step,
            duration_ms: self.duration_ms,
            easing: self.easing,
            start_ms: self.start_ms,
        }
    }
}

/// What happens to a counter.
#[derive(Debug, Clone, Copy, PartialEq, Eq, Structural)]
pub enum CounterEventKind {
    Pause,
    Resume,
    Destroy,
}

/// Something that happens to a counter at a point in time.
#[derive(Debug)]
pub struct CounterEvent {
    pub name: String,
    pub kind: CounterEventKind,
    pub at_ms: u32,
}

/// The value of a [`CounterEvent`].
pub struct CounterEventView {
    pub name: Seq<char>,
    pub kind: CounterEventKind,
    pub at_ms: u32,
}

impl View for CounterEvent {
    type V = CounterEventView;

    open spec fn view(&self) -> CounterEventView {
        CounterEventView { name: self.name@, kind: self.kind, at_ms: self.at_ms }
    }
}

/// A keyframe of a keyframe counter.
#[derive(Debug, Clone, Copy, PartialEq, Eq, Structural)]
pub struct Keyframe {
    pub at_ms: u32,
    pub value: i64,
    pub easing: Easing,
}

/// A keyframe counter.
#[derive(Debug)]
pub struct KeyframeCounterDef {
    pub name: String,
    pub scope: usize,
    pub seed: i64,
    pub easing: Easing,
    pub start_ms: u32,
    pub keyframes: Vec<Keyframe>,
}

/// The value of a [`KeyframeCounterDef`].
pub struct KeyframeCounterView {
    pub name: Seq<char>,
    pub scope: usize,
    pub seed: i64,
    pub easing: Easing,
    pub start_ms: u32,
    pub keyframes: Seq<Keyframe>,
}

impl View for KeyframeCounterDef {
    type V = KeyframeCounterView;

    open spec fn view(&self) -> KeyframeCounterView {
        KeyframeCounterView {
            name: self.name@,
            scope: self.scope,
            seed: self.seed,
            easing: self.easing,
            start_ms: self.start_ms,
            keyframes: self.keyframes@,
        }
    }
}

/// A lexical scope with its stretch of the timeline.
#[derive(Debug, Clone, Copy, PartialEq, Eq, Structural)]
pub struct ScopeInfo {
    pub id: usize,
    pub parent: Option<usize>,
    pub start_ms: u32,
    pub end_ms: u32,
}

/// A scene with its stretch of the timeline.
#[derive(Debug)]
pub struct SceneInfo {
    pub id: usize,
    pub name: Option<String>,
    pub scope: usize,
    pub page_size: Option<(Length, Length)>,
    pub start_ms: u32,
    pub end_ms: u32,
    /// The mobjects of the scene, in the order of their declaration.
    pub owns_labels: Vec<String>,
}

/// The value of a [`SceneInfo`].
pub struct SceneInfoView {
    pub id: usize,
    pub name: Option<Seq<char>>,
    pub scope: usize,
    pub page_size: Option<(Length, Length)>,
    pub start_ms: u32,
    pub end_ms: u32,
    pub owns_labels: Seq<Seq<char>>,
}

impl View for SceneInfo {
    type V = SceneInfoView;

    open spec fn view(&self) -> SceneInfoView {
        SceneInfoView {
            id: self.id,
            name: opt_text(self.name),
            scope: self.scope,
            page_size: self.page_size,
            start_ms: self.start_ms,
            end_ms: self.end_ms,
            owns_labels: texts(self.owns_labels@),
        }
    }
}

/// Canvas, resolution and frame rate of the whole animation.
#[derive(Debug, Clone, Copy, PartialEq, Eq, Structural)]
pub struct GlobalConfig {
    pub width: Length,
    pub height: Length,
    pub ppi: u32,
    pub fps: u32,
}

} // verus!
