//! The order in which scenes are played.

use vstd::prelude::*;
use vstd::string::*;
use crate::context::{CtxView, ParseCtx};
use crate::diag::{Fault, FaultView};
use crate::scene::{
    lemma_seq_view_push, seq_view, Action, ActionView, SceneInfo, SceneInfoView, Slide, SlideView,
};
use crate::text::{parse_usize, parsed_unsigned, same};
use crate::walk::{find_scene, scene_index};

verus! {

broadcast use lemma_seq_view_push;

/// A stretch of the played timeline and the scene that it shows.
#[derive(Debug, Clone, Copy, PartialEq, Eq, Structural)]
pub struct Segment {
    pub scene: usize,
    pub start_ms: u32,
    pub end_ms: u32,
}

// ---------------------------------------------------------------- looking things up

/// The scene to which the first switch among the actions leads.
pub open spec fn switch_of(s: Seq<ActionView>) -> Option<Seq<char>>
    decreases s.len(),
{
    if s.len() == 0 {
        None
    } else {
        match switch_of(s.drop_last()) {
            Some(t) => Some(t),
            None => match s.last() {
                ActionView::SceneSwitch { target, .. } => Some(target),
                _ => None,
            },
        }
    }
}

/// The scene to which the first switch among the actions leads.
fn find_switch(v: &Vec<Action>) -> (r: Option<String>)
    ensures
        crate::syntax::opt_text(r) == switch_of(seq_view(v@)),
{
    let ghost s = seq_view(v@);
    let mut i: usize = 0;
    let mut found: Option<String> = None;
    assert(s.take(0) =~= Seq::<ActionView>::empty());
    while i < v.len()
        invariant
            i <= v.len(),
            s == seq_view(v@),
            crate::syntax::opt_text(found) == switch_of(s.take(i as int)),
        decreases v.len() - i,
    {
        assert(s.take(i + 1).drop_last() =~= s.take(i as int));
        assert(s[i as int] == v@[i as int]@);
        if found.is_none() {
            if let Action::SceneSwitch { target, .. } = &v[i] {
                found = Some(target.as_str().to_owned());
            }
        }
        i += 1;
    }
    assert(s.take(s.len() as int) =~= s);
    found
}

/// Whether any slide switches to another scene.
pub open spec fn has_switch(s: Seq<SlideView>) -> bool {
    exists|i: int| 0 <= i < s.len() && switch_of(#[trigger] s[i].actions) is Some
}

fn any_switch(v: &Vec<Slide>) -> (r: bool)
    ensures
        r == has_switch(seq_view(v@)),
{
    let ghost s = seq_view(v@);
    let mut i: usize = 0;
    while i < v.len()
        invariant
            i <= v.len(),
            s == seq_view(v@),
            forall|j: int| 0 <= j < i ==> switch_of(#[trigger] s[j].actions) is None,
        decreases v.len() - i,
    {
        assert(s[i as int] == v@[i as int]@);
        if find_switch(&v[i].actions).is_some() {
            assert(switch_of(s[i as int].actions) is Some);
            return true;
        }
        i += 1;
    }
    false
}

/// The scene that is shown at time `t`: the last one whose interval holds `t`, or else the scene
/// of the whole document.
pub open spec fn active_at(s: Seq<SceneInfoView>, t: u32) -> usize
    decreases s.len(),
{
    if s.len() == 0 {
        0
    } else if s.last().start_ms <= t <= s.last().end_ms {
        s.last().id
    } else {
        active_at(s.drop_last(), t)
    }
}

/// The scene that is shown at time `t`.
pub fn find_active(v: &Vec<SceneInfo>, t: u32) -> (r: usize)
    ensures
        r == active_at(seq_view(v@), t),
{
    let ghost s = seq_view(v@);
    let mut i: usize = v.len();
    assert(s.take(s.len() as int) =~= s);
    while i > 0
        invariant
            i <= v.len(),
            s == seq_view(v@),
            active_at(s, t) == active_at(s.take(i as int), t),
        decreases i,
    {
        assert(s.take(i as int).drop_last() =~= s.take(i - 1));
        assert(s[i - 1] == v@[i - 1]@);
        if v[i - 1].start_ms <= t && t <= v[i - 1].end_ms {
            return v[i - 1].id;
        }
        i -= 1;
    }
    0
}

/// The id of the first scene with the given name.
pub open spec fn id_of(s: Seq<SceneInfoView>, name: Seq<char>) -> Option<usize>
    decreases s.len(),
{
    if s.len() == 0 {
        None
    } else {
        match id_of(s.drop_last(), name) {
            Some(id) => Some(id),
            None => if s.last().name == Some(name) {
                Some(s.last().id)
            } else {
                None
            },
        }
    }
}

/// The scene that a switch names: by its name, or else by its number.
pub open spec fn resolved(s: Seq<SceneInfoView>, target: Seq<char>) -> Option<usize> {
    match id_of(s, target) {
        Some(id) => Some(id),
        None => match parsed_unsigned(target, usize::MAX as nat) {
            Some(n) => if scene_index(s, n as usize) < s.len() {
                Some(n as usize)
            } else {
                None
            },
            None => None,
        },
    }
}

fn resolve(v: &Vec<SceneInfo>, target: &str) -> (r: Option<usize>)
    ensures
        r == resolved(seq_view(v@), target@),
{
    let ghost s = seq_view(v@);
    let mut i: usize = 0;
    let mut found: Option<usize> = None;
    assert(s.take(0) =~= Seq::<SceneInfoView>::empty());
    while i < v.len()
        invariant
            i <= v.len(),
            s == seq_view(v@),
            found == id_of(s.take(i as int), target@),
        decreases v.len() - i,
    {
        assert(s.take(i + 1).drop_last() =~= s.take(i as int));
        assert(s[i as int] == v@[i as int]@);
        if found.is_none() {
            if let Some(n) = &v[i].name {
                if same(n.as_str(), target) {
                    found = Some(v[i].id);
                }
            }
        }
        i += 1;
    }
    assert(s.take(s.len() as int) =~= s);
    if found.is_some() {
        return found;
    }
    match parse_usize(target) {
        Some(n) => if find_scene(v, n) < v.len() {
            Some(n)
        } else {
            None
        },
        None => None,
    }
}

/// When a scene starts.
pub open spec fn start_of_scene(s: Seq<SceneInfoView>, id: usize, otherwise: u32) -> u32 {
    let i = scene_index(s, id);
    if 0 <= i < s.len() {
        s[i].start_ms
    } else {
        otherwise
    }
}

// ---------------------------------------------------------------- playing

/// When a slide would start if all slides were played one after the other.
pub open spec fn sequential_start(s: Seq<SlideView>, i: int) -> u32
    decreases i,
{
    if i <= 0 {
        0
    } else {
        sequential_start(s, i - 1).wrapping_add(s[i - 1].duration_ms)
    }
}

/// The scene that a slide belongs to: the one that its middle falls into.
pub open spec fn scene_of(slides: Seq<SlideView>, scenes: Seq<SceneInfoView>, i: int) -> usize {
    active_at(
        scenes,
        sequential_start(slides, i).wrapping_add((slides[i].duration_ms / 2) as u32),
    )
}

/// The first slide from `i` on that belongs to the scene; the number of slides where none does.
pub open spec fn skipped_to(
    slides: Seq<SlideView>,
    scenes: Seq<SceneInfoView>,
    i: int,
    id: usize,
) -> int
    decreases slides.len() - i,
{
    if i >= slides.len() || scene_of(slides, scenes, i) == id {
        i
    } else {
        skipped_to(slides, scenes, i + 1, id)
    }
}

/// A slide moved to where it is played.
pub open spec fn moved(slides: Seq<SlideView>, i: int, now: u32) -> SlideView {
    SlideView {
        start_ms: slides[i].start_ms.wrapping_add(now.wrapping_sub(sequential_start(slides, i))),
        ..slides[i]
    }
}

/// What is played behind slide `i` when that slide starts at `now`: the number of the next slide
/// and its time. A switch to a scene that starts later jumps there and leaves out the slides of
/// other scenes on the way. `Err` holds the name of a scene that does not exist.
pub open spec fn after(
    slides: Seq<SlideView>,
    scenes: Seq<SceneInfoView>,
    i: int,
    now: u32,
) -> Result<(int, u32), Seq<char>> {
    let end = now.wrapping_add(slides[i].duration_ms);
    match switch_of(slides[i].actions) {
        None => Ok((i + 1, end)),
        Some(t) => match resolved(scenes, t) {
            None => Err(t),
            Some(id) => {
                let start = start_of_scene(scenes, id, now);
                if start > now {
                    Ok((skipped_to(slides, scenes, i + 1, id), start))
                } else {
                    Ok((i + 1, end))
                }
            },
        },
    }
}

/// The slides and segments that are played from slide `i` on, at time `now`, behind those
/// already played.
pub open spec fn played(
    slides: Seq<SlideView>,
    scenes: Seq<SceneInfoView>,
    i: int,
    now: u32,
    out: Seq<SlideView>,
    segments: Seq<Segment>,
) -> Result<(Seq<SlideView>, Seq<Segment>), Seq<char>>
    decreases slides.len() - i,
{
    if i < 0 || i >= slides.len() {
        Ok((out, segments))
    } else {
        proof {
            lemma_skipped_to(slides, scenes, i + 1, resolved(scenes, switch_of(slides[i].actions)->0)->0);
        }
        match after(slides, scenes, i, now) {
            Err(t) => Err(t),
            Ok((next, then)) => played(
                slides,
                scenes,
                next,
                then,
                out.push(moved(slides, i, now)),
                segments.push(
                    Segment {
                        scene: scene_of(slides, scenes, i),
                        start_ms: now,
                        end_ms: now.wrapping_add(slides[i].duration_ms),
                    },
                ),
            ),
        }
    }
}

/// Skipping never goes back.
pub proof fn lemma_skipped_to(
    slides: Seq<SlideView>,
    scenes: Seq<SceneInfoView>,
    i: int,
    id: usize,
)
    ensures
        i <= skipped_to(slides, scenes, i, id),
        i <= slides.len() ==> skipped_to(slides, scenes, i, id) <= slides.len(),
    decreases slides.len() - i,
{
    if i < slides.len() && scene_of(slides, scenes, i) != id {
        lemma_skipped_to(slides, scenes, i + 1, id);
    }
}

/// From when to when the scene is played.
pub open spec fn extent(s: Seq<Segment>, id: usize) -> Option<(u32, u32)>
    decreases s.len(),
{
    if s.len() == 0 {
        None
    } else {
        let rest = extent(s.drop_last(), id);
        let x = s.last();
        if x.scene != id {
            rest
        } else {
            match rest {
                None => Some((x.start_ms, x.end_ms)),
                Some((a, b)) => Some(
                    (
                        if x.start_ms < a {
                            x.start_ms
                        } else {
                            a
                        },
                        if x.end_ms > b {
                            x.end_ms
                        } else {
                            b
                        },
                    ),
                ),
            }
        }
    }
}

fn find_extent(v: &Vec<Segment>, id: usize) -> (r: Option<(u32, u32)>)
    ensures
        r == extent(v@, id),
{
    let mut i: usize = 0;
    let mut r: Option<(u32, u32)> = None;
    assert(v@.take(0) =~= Seq::<Segment>::empty());
    while i < v.len()
        invariant
            i <= v.len(),
            r == extent(v@.take(i as int), id),
        decreases v.len() - i,
    {
        assert(v@.take(i + 1).drop_last() =~= v@.take(i as int));
        let x = v[i];
        if x.scene == id {
            r = match r {
                None => Some((x.start_ms, x.end_ms)),
                Some((a, b)) => Some(
                    (
                        if x.start_ms < a {
                            x.start_ms
                        } else {
                            a
                        },
                        if x.end_ms > b {
                            x.end_ms
                        } else {
                            b
                        },
                    ),
                ),
            };
        }
        i += 1;
    }
    assert(v@.take(v@.len() as int) =~= v@);
    r
}

/// A scene with the interval in which it is played. One that is never played is never shown.
pub open spec fn retimed_scene(x: SceneInfoView, segments: Seq<Segment>) -> SceneInfoView {
    match extent(segments, x.id) {
        Some((a, b)) => SceneInfoView { start_ms: a, end_ms: b, ..x },
        None => SceneInfoView { start_ms: u32::MAX, end_ms: u32::MAX, ..x },
    }
}

/// The scenes with the intervals in which they are played.
pub open spec fn retimed(s: Seq<SceneInfoView>, segments: Seq<Segment>) -> Seq<SceneInfoView> {
    Seq::new(s.len(), |i: int| retimed_scene(s[i], segments))
}

fn retime(v: &mut Vec<SceneInfo>, segments: &Vec<Segment>)
    ensures
        seq_view(final(v)@) == retimed(seq_view(old(v)@), segments@),
{
    let ghost s = seq_view(v@);
    let mut i: usize = 0;
    while i < v.len()
        invariant
            i <= v.len(),
            v@.len() == s.len(),
            forall|j: int| 0 <= j < i ==> (#[trigger] v@[j])@ == retimed_scene(s[j], segments@),
            forall|j: int| i <= j < v@.len() ==> (#[trigger] v@[j])@ == s[j],
        decreases v.len() - i,
    {
        let ghost before = v@[i as int]@;
        let (a, b): (u32, u32) = match find_extent(segments, v[i].id) {
            Some(x) => x,
            None => (u32::MAX, u32::MAX),
        };
        v[i].start_ms = a;
        v[i].end_ms = b;
        assert(v@[i as int]@ == retimed_scene(before, segments@));
        i += 1;
    }
    assert(seq_view(v@) =~= retimed(s, segments@));
}

/// The sequential start of each slide.
fn sequential_starts(v: &Vec<Slide>) -> (r: Vec<u32>)
    ensures
        r@.len() == v@.len(),
        forall|i: int|
            0 <= i < v@.len() ==> #[trigger] r@[i] == sequential_start(seq_view(v@), i),
{
    let ghost s = seq_view(v@);
    let mut r: Vec<u32> = Vec::new();
    let mut p: u32 = 0;
    let mut i: usize = 0;
    while i < v.len()
        invariant
            i <= v.len(),
            s == seq_view(v@),
            r@.len() == i,
            p == sequential_start(s, i as int),
            forall|j: int| 0 <= j < i ==> #[trigger] r@[j] == sequential_start(s, j),
        decreases v.len() - i,
    {
        assert(s[i as int] == v@[i as int]@);
        r.push(p);
        p = p.wrapping_add(v[i].duration_ms);
        i += 1;
    }
    r
}

fn skip_to(
    slides: &Vec<Slide>,
    starts: &Vec<u32>,
    scenes: &Vec<SceneInfo>,
    from: usize,
    id: usize,
    Ghost(all): Ghost<Seq<SlideView>>,
) -> (r: usize)
    requires
        from <= slides@.len(),
        starts@.len() == slides@.len(),
        all.len() == slides@.len(),
        forall|j: int| from <= j < slides@.len() ==> (#[trigger] slides@[j])@ == all[j],
        forall|j: int| 0 <= j < all.len() ==> #[trigger] starts@[j] == sequential_start(all, j),
    ensures
        r as int == skipped_to(all, seq_view(scenes@), from as int, id),
        from <= r <= slides@.len(),
{
    let mut i: usize = from;
    while i < slides.len()
        invariant
            from <= i <= slides@.len(),
            starts@.len() == slides@.len(),
            all.len() == slides@.len(),
            forall|j: int| from <= j < slides@.len() ==> (#[trigger] slides@[j])@ == all[j],
            forall|j: int|
                0 <= j < all.len() ==> #[trigger] starts@[j] == sequential_start(all, j),
            skipped_to(all, seq_view(scenes@), from as int, id) == skipped_to(
                all,
                seq_view(scenes@),
                i as int,
                id,
            ),
        decreases slides.len() - i,
    {
        assert(slides@[i as int]@ == all[i as int]);
        if find_active(scenes, starts[i].wrapping_add(slides[i].duration_ms / 2)) == id {
            return i;
        }
        i += 1;
    }
    i
}

/// Takes a slide out of the list.
fn take_slide(v: &mut Vec<Slide>, i: usize) -> (r: Slide)
    requires
        i < old(v)@.len(),
    ensures
        r == old(v)@[i as int],
        final(v)@.len() == old(v)@.len(),
        forall|j: int| 0 <= j < old(v)@.len() && j != i ==> #[trigger] final(v)@[j] == old(v)@[j],
{
    let mut r = Slide { start_ms: 0, duration_ms: 0, actions: Vec::new(), loc: None };
    std::mem::swap(&mut r, &mut v[i]);
    r
}

/// Plays the slides from the first one on. They are taken out of the list.
fn play(slides: &mut Vec<Slide>, scenes: &Vec<SceneInfo>) -> (r: Result<
    (Vec<Slide>, Vec<Segment>),
    String,
>)
    ensures
        match r {
            Ok((out, segments)) => played(
                seq_view(old(slides)@),
                seq_view(scenes@),
                0,
                0,
                Seq::empty(),
                Seq::empty(),
            ) == Ok::<(Seq<SlideView>, Seq<Segment>), Seq<char>>(
                (seq_view(out@), segments@),
            ),
            Err(t) => played(
                seq_view(old(slides)@),
                seq_view(scenes@),
                0,
                0,
                Seq::empty(),
                Seq::empty(),
            ) == Err::<(Seq<SlideView>, Seq<Segment>), Seq<char>>(t@),
        },
{
    let ghost all = seq_view(slides@);
    let ghost sv = seq_view(scenes@);
    let starts = sequential_starts(slides);
    let mut out: Vec<Slide> = Vec::new();
    let mut segments: Vec<Segment> = Vec::new();
    let mut i: usize = 0;
    let mut now: u32 = 0;
    assert(seq_view(out@) =~= Seq::<SlideView>::empty());
    while i < slides.len()
        invariant
            i <= slides@.len(),
            all.len() == slides@.len(),
            starts@.len() == slides@.len(),
            sv == seq_view(scenes@),
            all == seq_view(old(slides)@),
            forall|j: int| i <= j < slides@.len() ==> (#[trigger] slides@[j])@ == all[j],
            forall|j: int|
                0 <= j < all.len() ==> #[trigger] starts@[j] == sequential_start(all, j),
            played(all, sv, 0, 0, Seq::empty(), Seq::empty()) == played(
                all,
                sv,
                i as int,
                now,
                seq_view(out@),
                segments@,
            ),
        decreases slides.len() - i,
    {
        assert(slides@[i as int]@ == all[i as int]);
        let ghost out0 = seq_view(out@);
        let ghost seg0 = segments@;
        let duration: u32 = slides[i].duration_ms;
        let end: u32 = now.wrapping_add(duration);
        let scene: usize = find_active(scenes, starts[i].wrapping_add(duration / 2));
        let switch = find_switch(&slides[i].actions);
        let mut slide = take_slide(slides, i);
        let shift: u32 = now.wrapping_sub(starts[i]);
        slide.start_ms = slide.start_ms.wrapping_add(shift);
        assert(slide@ == moved(all, i as int, now));
        out.push(slide);
        segments.push(Segment { scene, start_ms: now, end_ms: end });
        let mut next: usize = i + 1;
        let mut then: u32 = end;
        if let Some(t) = switch {
            match resolve(scenes, t.as_str()) {
                None => {
                    assert(after(all, sv, i as int, now) == Err::<(int, u32), Seq<char>>(t@));
                    return Err(t);
                },
                Some(id) => {
                    let at: usize = find_scene(scenes, id);
                    if at < scenes.len() {
                        assert(sv[at as int] == scenes@[at as int]@);
                        if scenes[at].start_ms > now {
                            next = skip_to(slides, &starts, scenes, i + 1, id, Ghost(all));
                            then = scenes[at].start_ms;
                        }
                    }
                },
            }
        }
        assert(after(all, sv, i as int, now) == Ok::<(int, u32), Seq<char>>((next as int, then)));
        i = next;
        now = then;
    }
    Ok((out, segments))
}

// ---------------------------------------------------------------- laws

/// A document without a switch keeps its timeline and its scenes.
pub proof fn law_no_switch_changes_nothing(c: CtxView)
    requires
        !has_switch(c.slides),
    ensures
        switched(c) == Ok::<CtxView, FaultView>(c),
{
}

/// Every slide that is played is a slide of the document that keeps its duration, its actions
/// and its place in the source, and the slides come in the order of the document.
pub proof fn law_playing_keeps_slides(c: CtxView, picks: Seq<int>)
    requires
        switched(c) is Ok,
        has_switch(c.slides),
        picks == picked(c.slides, c.scenes, 0, 0),
    ensures
        ({
            let out = switched(c)->Ok_0.slides;
            &&& out.len() == picks.len()
            &&& forall|k: int|
                0 <= k < out.len() ==> 0 <= #[trigger] picks[k] < c.slides.len()
                    && out[k].duration_ms == c.slides[picks[k]].duration_ms && out[k].actions
                    == c.slides[picks[k]].actions && out[k].loc == c.slides[picks[k]].loc
            &&& forall|k: int, l: int| 0 <= k < l < picks.len() ==> picks[k] < picks[l]
        }),
{
    lemma_played(c.slides, c.scenes, 0, 0, Seq::empty(), Seq::empty());
}

/// The numbers of the slides that are played from slide `i` on, at time `now`.
pub open spec fn picked(
    slides: Seq<SlideView>,
    scenes: Seq<SceneInfoView>,
    i: int,
    now: u32,
) -> Seq<int>
    decreases slides.len() - i,
{
    if i < 0 || i >= slides.len() {
        Seq::empty()
    } else {
        proof {
            lemma_skipped_to(slides, scenes, i + 1, resolved(scenes, switch_of(slides[i].actions)->0)->0);
        }
        match after(slides, scenes, i, now) {
            Err(_) => seq![i],
            Ok((next, then)) => seq![i] + picked(slides, scenes, next, then),
        }
    }
}

proof fn lemma_played(
    slides: Seq<SlideView>,
    scenes: Seq<SceneInfoView>,
    i: int,
    now: u32,
    out: Seq<SlideView>,
    segments: Seq<Segment>,
)
    requires
        0 <= i <= slides.len(),
        played(slides, scenes, i, now, out, segments) is Ok,
    ensures
        ({
            let all = played(slides, scenes, i, now, out, segments)->Ok_0.0;
            let picks = picked(slides, scenes, i, now);
            &&& all.len() == out.len() + picks.len()
            &&& all.take(out.len() as int) == out
            &&& forall|k: int|
                0 <= k < picks.len() ==> i <= #[trigger] picks[k] < slides.len() && all[out.len()
                    + k].duration_ms == slides[picks[k]].duration_ms && all[out.len() + k].actions
                    == slides[picks[k]].actions && all[out.len() + k].loc == slides[picks[k]].loc
            &&& forall|k: int, l: int| 0 <= k < l < picks.len() ==> picks[k] < picks[l]
        }),
    decreases slides.len() - i,
{
    if i < slides.len() {
        lemma_skipped_to(slides, scenes, i + 1, resolved(scenes, switch_of(slides[i].actions)->0)->0);
        let (next, then) = after(slides, scenes, i, now)->Ok_0;
        let out1 = out.push(moved(slides, i, now));
        let seg1 = segments.push(
            Segment {
                scene: scene_of(slides, scenes, i),
                start_ms: now,
                end_ms: now.wrapping_add(slides[i].duration_ms),
            },
        );
        lemma_played(slides, scenes, next, then, out1, seg1);
        let all = played(slides, scenes, i, now, out, segments)->Ok_0.0;
        let rest = picked(slides, scenes, next, then);
        let picks = picked(slides, scenes, i, now);
        assert(all == played(slides, scenes, next, then, out1, seg1)->Ok_0.0);
        assert(picks =~= seq![i] + rest);
        assert(all.take(out.len() as int) =~= out) by {
            assert(all.take(out1.len() as int) == out1);
            assert forall|k: int| 0 <= k < out.len() implies all[k] == out[k] by {
                assert(all.take(out1.len() as int)[k] == out1[k]);
            }
        }
        assert(all[out.len() as int] == moved(slides, i, now)) by {
            assert(all.take(out1.len() as int)[out.len() as int] == out1[out.len() as int]);
        }
        assert forall|k: int| 0 <= k < picks.len() implies i <= #[trigger] picks[k] < slides.len()
            && all[out.len() + k].duration_ms == slides[picks[k]].duration_ms && all[out.len()
            + k].actions == slides[picks[k]].actions && all[out.len() + k].loc
            == slides[picks[k]].loc by {
            if k > 0 {
                assert(picks[k] == rest[k - 1]);
                assert(all[out1.len() + (k - 1)].duration_ms == slides[rest[k - 1]].duration_ms);
            }
        }
        assert forall|k: int, l: int| 0 <= k < l < picks.len() implies picks[k] < picks[l] by {
            assert(picks[l] == rest[l - 1]);
            if k > 0 {
                assert(picks[k] == rest[k - 1]);
            }
        }
    } else {
        assert(out.take(out.len() as int) =~= out);
    }
}

/// The interval of a scene holds everything of it that is played; a scene that is not played
/// gets an interval that nothing before the very end of the time scale falls into.
pub proof fn law_scene_interval_holds_what_is_played(
    scenes: Seq<SceneInfoView>,
    segments: Seq<Segment>,
    i: int,
)
    requires
        0 <= i < scenes.len(),
    ensures
        ({
            let x = retimed(scenes, segments)[i];
            &&& x.id == scenes[i].id && x.name == scenes[i].name && x.owns_labels
                == scenes[i].owns_labels
            &&& forall|k: int|
                0 <= k < segments.len() && (#[trigger] segments[k]).scene == x.id ==> x.start_ms
                    <= segments[k].start_ms && segments[k].end_ms <= x.end_ms
            &&& (forall|k: int|
                0 <= k < segments.len() ==> (#[trigger] segments[k]).scene != x.id)
                ==> x.start_ms == u32::MAX && x.end_ms == u32::MAX
        }),
{
    lemma_extent(segments, scenes[i].id);
}

proof fn lemma_extent(s: Seq<Segment>, id: usize)
    ensures
        match extent(s, id) {
            Some((a, b)) => (forall|k: int|
                0 <= k < s.len() && (#[trigger] s[k]).scene == id ==> a <= s[k].start_ms
                    && s[k].end_ms <= b) && exists|k: int|
                0 <= k < s.len() && (#[trigger] s[k]).scene == id,
            None => forall|k: int| 0 <= k < s.len() ==> (#[trigger] s[k]).scene != id,
        },
    decreases s.len(),
{
    if s.len() > 0 {
        let t = s.drop_last();
        lemma_extent(t, id);
        assert forall|k: int| 0 <= k < t.len() implies s[k] == #[trigger] t[k] by {}
        assert(s[s.len() - 1] == s.last());
        assert(forall|k: int| 0 <= k < s.len() - 1 ==> #[trigger] s[k] == t[k]);
        if extent(t, id) is Some {
            let k = choose|k: int| 0 <= k < t.len() && (#[trigger] t[k]).scene == id;
            assert(s[k].scene == id);
        }
    }
}

/// The state with the timeline in the order in which it is played. Without a switch nothing
/// changes.
pub open spec fn switched(c: CtxView) -> Result<CtxView, FaultView> {
    if !has_switch(c.slides) {
        Ok(c)
    } else {
        match played(c.slides, c.scenes, 0, 0, Seq::empty(), Seq::empty()) {
            Err(name) => Err(
                FaultView::UnknownKey {
                    what: "scene"@,
                    name,
                    at: if c.scene_switch_locs.contains_key(name) {
                        Some(c.scene_switch_locs[name])
                    } else {
                        None
                    },
                },
            ),
            Ok((slides, segments)) => Ok(
                CtxView { slides, scenes: retimed(c.scenes, segments), ..c },
            ),
        }
    }
}

/// Follows the switches between scenes.
///
/// A switch to a scene that starts later jumps to it; the scenes in between are left out. Each
/// scene gets the interval in which it is played.
pub fn finalize_scene_switching(ctx: ParseCtx) -> (r: Result<ParseCtx, Fault>)
    ensures
        match r {
            Ok(c) => switched(ctx@) == Ok::<CtxView, FaultView>(c@),
            Err(f) => switched(ctx@) == Err::<CtxView, FaultView>(f@),
        },
{
    if !any_switch(&ctx.slides) {
        return Ok(ctx);
    }
    let mut ctx = ctx;
    let mut slides: Vec<Slide> = Vec::new();
    std::mem::swap(&mut slides, &mut ctx.slides);
    match play(&mut slides, &ctx.scenes) {
        Err(name) => {
            let at = match ctx.scene_switch_locs.get(name.as_str()) {
                Some(at) => Some(*at),
                None => None,
            };
            Err(Fault::UnknownKey { what: "scene".to_owned(), name, at })
        },
        Ok((slides, segments)) => {
            ctx.slides = slides;
            retime(&mut ctx.scenes, &segments);
            Ok(ctx)
        },
    }
}

} // verus!
