//! From a document to a scene.

use vstd::prelude::*;
use vstd::string::*;
use crate::context::{CtxView, ParseCtx};
use crate::diag::{CandyError, CandyWarn, ErrorView, Fault, FaultView, LocView, SourceLoc, WarnView};
use crate::includes::{
    expand_includes, expanded, frame_at, locate, located, Expanded, ExpandedView, FileEntry, Link,
    LinkView, Stop, StopView,
};
use crate::meta::PrivateMeta;
use crate::number::Length;
use crate::scene::{
    lemma_seq_view_push, seq_view, AudioTrack, AudioTrackView, CounterDef, CounterDefView,
    CounterEvent, CounterEventView, FrameData, FrameDataView, GlobalConfig, KeyframeCounterDef,
    KeyframeCounterView, MorphPair, MorphPairView, SceneInfo, SceneInfoView, ScopeInfo, Slide,
    SlideView, Span, Subtitle, SubtitleView, SwitchView, Switches, TransformPlan,
    TransformPlanView,
};
use crate::switching::{active_at, finalize_scene_switching, find_active, switched};
use crate::syntax::{document, parse_document};
use crate::table::Table;
use crate::text::{join3, same, texts};
use crate::walk::{end_scene, ended, find_scene, scene_index, walk, walked};

verus! {

broadcast use lemma_seq_view_push;

/// A document that was read.
#[derive(Debug)]
pub struct Input {
    /// The file as it is called, in canonical form, and what it holds.
    pub path: String,
    pub canon: String,
    pub source: String,
    /// The files that were asked for so far.
    pub files: Vec<FileEntry>,
    /// The canvas of a document whose show rule says nothing of it.
    pub config: GlobalConfig,
    /// Names for the scenes that have none, in their order.
    pub names: Vec<String>,
}

/// Whether a version of the candy package is accepted.
#[derive(Debug)]
pub struct Verdict {
    pub version: String,
    pub compatible: bool,
}

impl View for Verdict {
    type V = (Seq<char>, bool);

    open spec fn view(&self) -> (Seq<char>, bool) {
        (self.version@, self.compatible)
    }
}

/// Which versions of the candy package a document may import.
#[derive(Debug)]
pub struct VersionPolicy {
    /// Whether every version, and a file in place of the package, is accepted.
    pub ignore: bool,
    /// The version of this program.
    pub cli: String,
    /// The accepted versions, as they are told to the user.
    pub requirements: String,
    /// The versions that were judged so far.
    pub verdicts: Vec<Verdict>,
}

/// Why a parse stops.
#[derive(Debug)]
pub enum Pause {
    /// The file that `from` asks for by the name `rel` has to be handed in.
    File { from: String, rel: String },
    /// The version has to be judged.
    Version(String),
    Error(CandyError),
}

/// The value of a [`Pause`].
pub enum PauseView {
    File { from: Seq<char>, rel: Seq<char> },
    Version(Seq<char>),
    Error(ErrorView),
}

impl View for Pause {
    type V = PauseView;

    open spec fn view(&self) -> PauseView {
        match *self {
            Pause::File { from, rel } => PauseView::File { from: from@, rel: rel@ },
            Pause::Version(v) => PauseView::Version(v@),
            Pause::Error(e) => PauseView::Error(e@),
        }
    }
}

// ---------------------------------------------------------------- the scene

/// A parsed document.
#[derive(Debug)]
pub struct Scene {
    pub slides: Vec<Slide>,
    pub items: Table<String>,
    pub content_timeline: Table<Switches>,
    pub morph_pairs: Vec<MorphPair>,
    pub transform_plans: Vec<TransformPlan>,
    pub initial: Table<FrameData>,
    pub audio: Vec<AudioTrack>,
    pub imports: Vec<String>,
    pub page_size: Option<(Length, Length)>,
    pub subtitles: Vec<Subtitle>,
    pub counters: Vec<CounterDef>,
    pub counter_events: Vec<CounterEvent>,
    pub kcdefs: Vec<KeyframeCounterDef>,
    pub kc_events: Vec<CounterEvent>,
    pub scopes: Vec<ScopeInfo>,
    pub scenes: Vec<SceneInfo>,
    pub groups: Table<String>,
    pub artifacts: ParseArtifacts,
    pub warnings: Vec<CandyWarn>,
    pub private_metadata: PrivateMeta,
}

/// Where in the source the parts of a scene stand.
#[derive(Debug)]
pub struct ParseArtifacts {
    pub file_path: String,
    pub source: Expanded,
    pub mobject_body: Table<Span>,
    pub scene_call: Vec<(usize, Span)>,
    pub subtitle_call: Table<Span>,
    pub label_locs: Table<Span>,
    pub name_ref_locs: Table<Span>,
    pub config: GlobalConfig,
}

/// The value of a [`Scene`].
#[verifier::ext_equal]
pub struct SceneView {
    pub slides: Seq<SlideView>,
    pub items: Map<Seq<char>, Seq<char>>,
    pub content_timeline: Map<Seq<char>, Seq<SwitchView>>,
    pub morph_pairs: Seq<MorphPairView>,
    pub transform_plans: Seq<TransformPlanView>,
    pub initial: Map<Seq<char>, FrameDataView>,
    pub audio: Seq<AudioTrackView>,
    pub imports: Seq<Seq<char>>,
    pub page_size: Option<(Length, Length)>,
    pub subtitles: Seq<SubtitleView>,
    pub counters: Seq<CounterDefView>,
    pub counter_events: Seq<CounterEventView>,
    pub kcdefs: Seq<KeyframeCounterView>,
    pub kc_events: Seq<CounterEventView>,
    pub scopes: Seq<ScopeInfo>,
    pub scenes: Seq<SceneInfoView>,
    pub groups: Map<Seq<char>, Seq<char>>,
    pub file_path: Seq<char>,
    pub source: ExpandedView,
    pub mobject_body: Map<Seq<char>, Span>,
    pub scene_call: Seq<(usize, Span)>,
    pub subtitle_call: Map<Seq<char>, Span>,
    pub label_locs: Map<Seq<char>, Span>,
    pub name_ref_locs: Map<Seq<char>, Span>,
    pub config: GlobalConfig,
    pub warnings: Seq<WarnView>,
    pub private_metadata: crate::meta::PrivateMetaView,
}

impl View for Scene {
    type V = SceneView;

    open spec fn view(&self) -> SceneView {
        SceneView {
            slides: seq_view(self.slides@),
            items: self.items@,
            content_timeline: self.content_timeline@,
            morph_pairs: seq_view(self.morph_pairs@),
            transform_plans: seq_view(self.transform_plans@),
            initial: self.initial@,
            audio: seq_view(self.audio@),
            imports: texts(self.imports@),
            page_size: self.page_size,
            subtitles: seq_view(self.subtitles@),
            counters: seq_view(self.counters@),
            counter_events: seq_view(self.counter_events@),
            kcdefs: seq_view(self.kcdefs@),
            kc_events: seq_view(self.kc_events@),
            scopes: self.scopes@,
            scenes: seq_view(self.scenes@),
            groups: self.groups@,
            file_path: self.artifacts.file_path@,
            source: self.artifacts.source@,
            mobject_body: self.artifacts.mobject_body@,
            scene_call: self.artifacts.scene_call@,
            subtitle_call: self.artifacts.subtitle_call@,
            label_locs: self.artifacts.label_locs@,
            name_ref_locs: self.artifacts.name_ref_locs@,
            config: self.artifacts.config,
            warnings: seq_view(self.warnings@),
            private_metadata: self.private_metadata@,
        }
    }
}

impl Scene {
    /// The scene that is shown at time `t`.
    pub fn active_scene_at(&self, t: u32) -> (r: usize)
        ensures
            r == active_at(self@.scenes, t),
    {
        find_active(&self.scenes, t)
    }
}

// ---------------------------------------------------------------- errors

/// A fault with the place in a file that it is about.
pub open spec fn placed(path: Seq<char>, x: ExpandedView, f: FaultView) -> ErrorView {
    match f {
        FaultView::Parse { message, at } => ErrorView::Parse(message, place_of(path, x, at)),
        FaultView::UnknownKey { what, name, at } => ErrorView::UnknownKey(
            what,
            name,
            place_of(path, x, at),
        ),
        FaultView::InvalidKey { what, value, not_ident, at } => ErrorView::InvalidKey {
            what,
            value,
            not_ident,
            loc: place_of(path, x, at),
        },
        FaultView::DumpedYou { message, at } => ErrorView::CandyDumpedYou(
            message,
            place_of(path, x, at),
        ),
        FaultView::Scene { message, at } => ErrorView::Scene(message, place_of(path, x, at)),
    }
}

/// The place in a file of a part of the expanded document.
pub open spec fn place_of(path: Seq<char>, x: ExpandedView, at: Option<Span>) -> Option<LocView> {
    match at {
        Some(s) => Some(located(path, x, s)),
        None => None,
    }
}

fn find_place(path: &str, x: &Expanded, at: Option<Span>) -> (r: Option<SourceLoc>)
    ensures
        crate::diag::opt_loc(r) == place_of(path@, x@, at),
{
    match at {
        Some(s) => Some(locate(path, x, s)),
        None => None,
    }
}

/// Turns a fault into an error that points into a file.
pub fn place_fault(path: &str, x: &Expanded, f: Fault) -> (r: CandyError)
    ensures
        r@ == placed(path@, x@, f@),
{
    match f {
        Fault::Parse { message, at } => CandyError::Parse(message, find_place(path, x, at)),
        Fault::UnknownKey { what, name, at } => CandyError::UnknownKey(
            what,
            name,
            find_place(path, x, at),
        ),
        Fault::InvalidKey { what, value, not_ident, at } => CandyError::InvalidKey {
            what,
            value,
            not_ident,
            loc: find_place(path, x, at),
        },
        Fault::DumpedYou { message, at } => CandyError::CandyDumpedYou(
            message,
            find_place(path, x, at),
        ),
        Fault::Scene { message, at } => CandyError::Scene(message, find_place(path, x, at)),
    }
}

// ---------------------------------------------------------------- before and after the walk

/// The state before the walk: the document is the outermost scope and the scene number 0.
pub open spec fn fresh(source: Seq<char>, config: GlobalConfig) -> CtxView {
    CtxView {
        source,
        symbol_map: Map::empty(),
        candy_aliases: Seq::empty(),
        candy_imported: false,
        candy_import_version: None,
        candy_import_loc: None,
        file_style_candy_import: false,
        file_style_import_loc: None,
        items: Map::empty(),
        initial: Map::empty(),
        slides: Seq::empty(),
        audio: Seq::empty(),
        cursor: 0,
        timeline_start: 0,
        entry_end: 0,
        block_counter: 0,
        xf_counter: 0,
        subtitle_id: 0,
        page_size: None,
        imports: Seq::empty(),
        content_timeline: Map::empty(),
        morph_pairs: Seq::empty(),
        transform_plans: Seq::empty(),
        scope_stack: seq![0],
        next_scope_id: 1,
        subtitles: Seq::empty(),
        counters: Seq::empty(),
        counter_events: Seq::empty(),
        mobject_names: Seq::empty(),
        ecnew_names: Seq::empty(),
        kcnew_names: Seq::empty(),
        kcdefs: Seq::empty(),
        kc_events: Seq::empty(),
        pending_error: None,
        label_locs: Map::empty(),
        name_ref_locs: Map::empty(),
        scene_switch_locs: Map::empty(),
        current_directive_loc: None,
        scopes: Seq::empty(),
        scenes: seq![
            SceneInfoView {
                id: 0,
                name: Some("root"@),
                scope: 0,
                page_size: None,
                start_ms: 0,
                end_ms: 0,
                owns_labels: Seq::empty(),
            },
        ],
        groups: Map::empty(),
        next_scene_id: 1,
        scene_stack: Seq::empty(),
        current_scene: 0,
        label_scene: Map::empty(),
        label_order: Seq::empty(),
        mobject_body_ranges: Map::empty(),
        scene_call_ranges: Seq::empty(),
        subtitle_call_ranges: Map::empty(),
        config,
        candy_show_rule_seen: false,
        warnings: Seq::empty(),
    }
}

/// The state before the walk.
pub fn fresh_ctx(source: &str, config: GlobalConfig) -> (r: ParseCtx)
    ensures
        r@ == fresh(source@, config),
{
    let owns_labels: Vec<String> = Vec::new();
    assert(texts(owns_labels@) =~= Seq::<Seq<char>>::empty());
    let root = SceneInfo {
        id: 0,
        name: Some("root".to_owned()),
        scope: 0,
        page_size: None,
        start_ms: 0,
        end_ms: 0,
        owns_labels,
    };
    let mut scenes: Vec<SceneInfo> = Vec::new();
    scenes.push(root);
    let mut scope_stack: Vec<usize> = Vec::new();
    scope_stack.push(0);
    let r = ParseCtx {
        source: source.to_owned(),
        symbol_map: Table::new(),
        candy_aliases: Vec::new(),
        candy_imported: false,
        candy_import_version: None,
        candy_import_loc: None,
        file_style_candy_import: false,
        file_style_import_loc: None,
        items: Table::new(),
        initial: Table::new(),
        slides: Vec::new(),
        audio: Vec::new(),
        cursor: 0,
        timeline_start: 0,
        entry_end: 0,
        block_counter: 0,
        xf_counter: 0,
        subtitle_id: 0,
        page_size: None,
        imports: Vec::new(),
        content_timeline: Table::new(),
        morph_pairs: Vec::new(),
        transform_plans: Vec::new(),
        scope_stack,
        next_scope_id: 1,
        subtitles: Vec::new(),
        counters: Vec::new(),
        counter_events: Vec::new(),
        mobject_names: Vec::new(),
        ecnew_names: Vec::new(),
        kcnew_names: Vec::new(),
        kcdefs: Vec::new(),
        kc_events: Vec::new(),
        pending_error: None,
        label_locs: Table::new(),
        name_ref_locs: Table::new(),
        scene_switch_locs: Table::new(),
        current_directive_loc: None,
        scopes: Vec::new(),
        scenes,
        groups: Table::new(),
        next_scene_id: 1,
        scene_stack: Vec::new(),
        current_scene: 0,
        label_scene: Table::new(),
        label_order: Vec::new(),
        mobject_body_ranges: Table::new(),
        scene_call_ranges: Vec::new(),
        subtitle_call_ranges: Table::new(),
        config,
        candy_show_rule_seen: false,
        warnings: Vec::new(),
    };
    proof {
        assert(r@.scenes =~= fresh(source@, config).scenes);
        assert(r@.scope_stack =~= fresh(source@, config).scope_stack);
        assert(r@ =~= fresh(source@, config));
    }
    r
}

/// The scene that a label belongs to.
pub open spec fn owner_of(label_scene: Map<Seq<char>, usize>, label: Seq<char>) -> usize {
    if label_scene.contains_key(label) {
        label_scene[label]
    } else {
        0
    }
}

/// The scenes with a label given to the first one with the id.
pub open spec fn given(s: Seq<SceneInfoView>, id: usize, label: Seq<char>) -> Seq<SceneInfoView> {
    let i = scene_index(s, id);
    if 0 <= i < s.len() {
        s.update(i, SceneInfoView { owns_labels: s[i].owns_labels.push(label), ..s[i] })
    } else {
        s
    }
}

/// The scenes with each label given to the scene that it belongs to, in the order of the labels.
pub open spec fn distributed(
    s: Seq<SceneInfoView>,
    label_scene: Map<Seq<char>, usize>,
    order: Seq<Seq<char>>,
) -> Seq<SceneInfoView>
    decreases order.len(),
{
    if order.len() == 0 {
        s
    } else {
        given(
            distributed(s, label_scene, order.drop_last()),
            owner_of(label_scene, order.last()),
            order.last(),
        )
    }
}

fn distribute(v: &mut Vec<SceneInfo>, label_scene: &Table<usize>, order: &Vec<String>)
    ensures
        seq_view(final(v)@) == distributed(seq_view(old(v)@), label_scene@, texts(order@)),
{
    let ghost s0 = seq_view(v@);
    let ghost o = texts(order@);
    let mut k: usize = 0;
    assert(o.take(0) =~= Seq::<Seq<char>>::empty());
    while k < order.len()
        invariant
            k <= order@.len(),
            o == texts(order@),
            s0 == seq_view(old(v)@),
            seq_view(v@) == distributed(s0, label_scene@, o.take(k as int)),
        decreases order.len() - k,
    {
        assert(o.take(k + 1).drop_last() =~= o.take(k as int));
        assert(o[k as int] == order@[k as int]@);
        let id: usize = match label_scene.get(order[k].as_str()) {
            Some(id) => *id,
            None => 0,
        };
        let ghost before = seq_view(v@);
        let i: usize = find_scene(v, id);
        if i < v.len() {
            assert(before[i as int] == v@[i as int]@);
            let ghost labels = v@[i as int].owns_labels@;
            let label = order[k].clone();
            v[i].owns_labels.push(label);
            proof {
                assert(texts(v@[i as int].owns_labels@) =~= texts(labels).push(label@));
                assert(seq_view(v@) =~= given(before, id, label@));
            }
        }
        k += 1;
    }
    assert(o.take(o.len() as int) =~= o);
}

/// The state after the walk with the outermost scope and the scene of the document closed, and
/// with every label given to its scene.
pub open spec fn wound_up(c: CtxView) -> CtxView {
    CtxView {
        scopes: c.scopes.push(ScopeInfo { id: 0, parent: None, start_ms: 0, end_ms: c.cursor }),
        scenes: distributed(ended(c.scenes, 0, c.cursor), c.label_scene, c.label_order),
        ..c
    }
}

fn wind_up(ctx: &mut ParseCtx)
    ensures
        final(ctx)@ == wound_up(old(ctx)@),
{
    let cursor: u32 = ctx.cursor;
    ctx.scopes.push(ScopeInfo { id: 0, parent: None, start_ms: 0, end_ms: cursor });
    end_scene(&mut ctx.scenes, 0, cursor);
    distribute(&mut ctx.scenes, &ctx.label_scene, &ctx.label_order);
}

// ---------------------------------------------------------------- the candy package

/// What is said of a version: `None` where it was not judged yet.
pub open spec fn judged(s: Seq<(Seq<char>, bool)>, version: Seq<char>) -> Option<bool>
    decreases s.len(),
{
    if s.len() == 0 {
        None
    } else if s.last().0 == version {
        Some(s.last().1)
    } else {
        judged(s.drop_last(), version)
    }
}

fn find_verdict(v: &Vec<Verdict>, version: &str) -> (r: Option<bool>)
    ensures
        r == judged(seq_view(v@), version@),
{
    let ghost s = seq_view(v@);
    let mut i: usize = v.len();
    assert(s.take(s.len() as int) =~= s);
    while i > 0
        invariant
            i <= v@.len(),
            s == seq_view(v@),
            judged(s, version@) == judged(s.take(i as int), version@),
        decreases i,
    {
        assert(s.take(i as int).drop_last() =~= s.take(i - 1));
        assert(s[i - 1] == v@[i - 1]@);
        if same(v[i - 1].version.as_str(), version) {
            return Some(v[i - 1].compatible);
        }
        i -= 1;
    }
    None
}

/// What is wrong with a version that is not accepted.
pub open spec fn mismatch(
    version: Seq<char>,
    cli: Seq<char>,
    requirements: Seq<char>,
    at: Option<Span>,
) -> FaultView {
    FaultView::DumpedYou {
        message: "candy version mismatch: .tyx imports candy:"@ + version
            + " but the installed candy CLI "@ + cli + " only accepts versions matching `"@
            + requirements + "`; pass --ignore-version to skip this check"@,
        at,
    }
}

/// What keeps a document from being rendered: `Ok` where nothing does, and the version where it
/// has to be judged first. The document must import the candy package, as a package and in an
/// accepted version, and apply its show rule.
pub open spec fn admitted(c: CtxView, policy: VersionPolicy) -> Result<
    (),
    Result<FaultView, Seq<char>>,
> {
    if !policy.ignore && c.file_style_candy_import {
        Err(
            Ok(
                FaultView::DumpedYou {
                    message:
                        "file-style candy import detected; candy must be imported as a Typst package (`@<namespace>/candy:<version>`), not via a local file path (e.g. `#import \"candy\"`); pass --ignore-version to bypass this check"@,
                    at: c.file_style_import_loc,
                },
            ),
        )
    } else if !c.candy_imported && !c.file_style_candy_import {
        Err(
            Ok(
                FaultView::DumpedYou {
                    message:
                        "the .tyx does not import the candy package; candy can only render documents that import `@<namespace>/candy:<version>`"@,
                    at: None,
                },
            ),
        )
    } else if !c.candy_show_rule_seen {
        Err(
            Ok(
                FaultView::DumpedYou {
                    message:
                        "the .tyx never applies the candy show rule; add `#show: candy` (optionally `#show: candy.with(width: .., height: .., ppi: .., fps: ..)`) right after the candy import — it configures the global canvas, resolution and frame rate for the whole animation"@,
                    at: c.candy_import_loc,
                },
            ),
        )
    } else if policy.ignore {
        Ok(())
    } else {
        match c.candy_import_version {
            None => Ok(()),
            Some(v) => match judged(seq_view(policy.verdicts@), v) {
                Some(true) => Ok(()),
                Some(false) => Err(
                    Ok(mismatch(v, policy.cli@, policy.requirements@, c.candy_import_loc)),
                ),
                None => Err(Err(v)),
            },
        }
    }
}

fn mismatch_fault(version: &str, policy: &VersionPolicy, at: Option<Span>) -> (r: Fault)
    ensures
        r@ == mismatch(version@, policy.cli@, policy.requirements@, at),
{
    let a = join3(
        "candy version mismatch: .tyx imports candy:",
        version,
        " but the installed candy CLI ",
    );
    let b = join3(a.as_str(), policy.cli.as_str(), " only accepts versions matching `");
    let message = join3(
        b.as_str(),
        policy.requirements.as_str(),
        "`; pass --ignore-version to skip this check",
    );
    Fault::DumpedYou { message, at }
}

fn check_package(ctx: &ParseCtx, policy: &VersionPolicy) -> (r: Result<(), Result<Fault, String>>)
    ensures
        match r {
            Ok(_) => admitted(ctx@, *policy) == Ok::<(), Result<FaultView, Seq<char>>>(()),
            Err(Ok(f)) => admitted(ctx@, *policy) == Err::<(), Result<FaultView, Seq<char>>>(
                Ok(f@),
            ),
            Err(Err(v)) => admitted(ctx@, *policy) == Err::<(), Result<FaultView, Seq<char>>>(
                Err(v@),
            ),
        },
{
    if !policy.ignore && ctx.file_style_candy_import {
        return Err(
            Ok(
                Fault::DumpedYou {
                    message:
                        "file-style candy import detected; candy must be imported as a Typst package (`@<namespace>/candy:<version>`), not via a local file path (e.g. `#import \"candy\"`); pass --ignore-version to bypass this check".to_owned(),
                    at: ctx.file_style_import_loc,
                },
            ),
        );
    }
    if !ctx.candy_imported && !ctx.file_style_candy_import {
        return Err(
            Ok(
                Fault::DumpedYou {
                    message:
                        "the .tyx does not import the candy package; candy can only render documents that import `@<namespace>/candy:<version>`".to_owned(),
                    at: None,
                },
            ),
        );
    }
    if !ctx.candy_show_rule_seen {
        return Err(
            Ok(
                Fault::DumpedYou {
                    message:
                        "the .tyx never applies the candy show rule; add `#show: candy` (optionally `#show: candy.with(width: .., height: .., ppi: .., fps: ..)`) right after the candy import — it configures the global canvas, resolution and frame rate for the whole animation".to_owned(),
                    at: ctx.candy_import_loc,
                },
            ),
        );
    }
    if policy.ignore {
        return Ok(());
    }
    match &ctx.candy_import_version {
        None => Ok(()),
        Some(v) => match find_verdict(&policy.verdicts, v.as_str()) {
            Some(true) => Ok(()),
            Some(false) => Err(Ok(mismatch_fault(v.as_str(), policy, ctx.candy_import_loc))),
            None => Err(Err(v.clone())),
        },
    }
}

// ---------------------------------------------------------------- scenes

/// The slides of a document, or a short pause where there are none.
pub open spec fn at_least_a_pause(s: Seq<SlideView>) -> Seq<SlideView> {
    if s.len() == 0 {
        seq![SlideView { start_ms: 0, duration_ms: 500, actions: Seq::empty(), loc: None }]
    } else {
        s
    }
}

/// The scenes with the size of one of them set.
pub open spec fn sized(
    s: Seq<SceneInfoView>,
    id: usize,
    size: (Length, Length),
) -> Seq<SceneInfoView> {
    let i = scene_index(s, id);
    if 0 <= i < s.len() {
        s.update(i, SceneInfoView { page_size: Some(size), ..s[i] })
    } else {
        s
    }
}

/// Whether a document declares scenes.
pub open spec fn has_explicit(s: Seq<SceneInfoView>) -> bool {
    exists|i: int| 0 <= i < s.len() && (#[trigger] s[i]).id != 0
}

/// Whether anything of a document belongs to no declared scene.
pub open spec fn root_owns(s: Seq<SceneInfoView>) -> bool {
    let i = scene_index(s, 0);
    0 <= i < s.len() && s[i].owns_labels.len() > 0
}

/// The declared scenes.
pub open spec fn explicit(s: Seq<SceneInfoView>) -> Seq<SceneInfoView>
    decreases s.len(),
{
    if s.len() == 0 {
        Seq::empty()
    } else if s.last().id != 0 {
        explicit(s.drop_last()).push(s.last())
    } else {
        explicit(s.drop_last())
    }
}

/// The fault of a document with content inside and outside of scenes.
pub open spec fn mixed_fault() -> FaultView {
    FaultView::Scene {
        message:
            "a document that defines explicit `#scene(...)` calls must not also contain content at the document root; either put all content inside scenes (parallel scenes, no root content) or keep root content and let the whole document be a single scene (no explicit `#scene` call)"@,
        at: None,
    }
}

/// How many scenes have no name.
pub open spec fn unnamed(s: Seq<SceneInfoView>) -> nat
    decreases s.len(),
{
    if s.len() == 0 {
        0
    } else {
        unnamed(s.drop_last()) + if s.last().name is None {
            1nat
        } else {
            0
        }
    }
}

/// The scenes with names for those that have none, as far as there are names; see
/// [`law_every_scene_named`].
pub open spec fn named(s: Seq<SceneInfoView>, names: Seq<Seq<char>>) -> Seq<SceneInfoView> {
    Seq::new(
        s.len(),
        |i: int|
            if s[i].name is None && unnamed(s.take(i)) < names.len() {
                SceneInfoView { name: Some(names[unnamed(s.take(i)) as int]), ..s[i] }
            } else {
                s[i]
            },
    )
}

fn any_explicit(v: &Vec<SceneInfo>) -> (r: bool)
    ensures
        r == has_explicit(seq_view(v@)),
{
    let ghost s = seq_view(v@);
    let mut i: usize = 0;
    while i < v.len()
        invariant
            i <= v@.len(),
            s == seq_view(v@),
            forall|j: int| 0 <= j < i ==> (#[trigger] s[j]).id == 0,
        decreases v.len() - i,
    {
        assert(s[i as int] == v@[i as int]@);
        if v[i].id != 0 {
            return true;
        }
        i += 1;
    }
    false
}

/// Takes the declared scenes out of the list.
fn keep_explicit(v: &mut Vec<SceneInfo>) -> (r: Vec<SceneInfo>)
    ensures
        seq_view(r@) == explicit(seq_view(old(v)@)),
{
    let ghost all = seq_view(v@);
    let mut back: Vec<SceneInfo> = Vec::new();
    while v.len() > 0
        invariant
            seq_view(v@).len() + back@.len() == all.len(),
            seq_view(v@) == all.take(v@.len() as int),
            forall|j: int|
                0 <= j < back@.len() ==> (#[trigger] back@[j])@ == all[all.len() - 1 - j],
        decreases v.len(),
    {
        let ghost n = v@.len() as int;
        let ghost before = v@;
        if let Some(x) = v.pop() {
            assert(before[n - 1]@ == seq_view(before)[n - 1]);
            assert(seq_view(v@) =~= all.take(n - 1));
            back.push(x);
        }
    }
    let mut r: Vec<SceneInfo> = Vec::new();
    let ghost mut k: int = 0;
    assert(seq_view(r@) =~= explicit(all.take(0)));
    while back.len() > 0
        invariant
            0 <= k <= all.len(),
            back@.len() == all.len() - k,
            forall|j: int|
                0 <= j < back@.len() ==> (#[trigger] back@[j])@ == all[all.len() - 1 - j],
            seq_view(r@) == explicit(all.take(k)),
        decreases back.len(),
    {
        let ghost before = back@;
        if let Some(x) = back.pop() {
            proof {
                assert(x == before[before.len() - 1]);
                assert(x@ == all[k]);
                assert(all.take(k + 1).drop_last() =~= all.take(k));
                assert(all.take(k + 1).last() == all[k]);
            }
            if x.id != 0 {
                r.push(x);
            }
            proof {
                k = k + 1;
            }
        }
    }
    assert(all.take(all.len() as int) =~= all);
    r
}

fn name_scenes(v: &mut Vec<SceneInfo>, names: &Vec<String>)
    ensures
        seq_view(final(v)@) == named(seq_view(old(v)@), texts(names@)),
{
    let ghost s = seq_view(v@);
    let ghost t = texts(names@);
    let mut used: usize = 0;
    let mut i: usize = 0;
    assert(s.take(0) =~= Seq::<SceneInfoView>::empty());
    while i < v.len()
        invariant
            i <= v@.len(),
            v@.len() == s.len(),
            t == texts(names@),
            s == seq_view(old(v)@),
            used == unnamed(s.take(i as int)),
            used <= i,
            forall|j: int| 0 <= j < i ==> (#[trigger] v@[j])@ == named(s, t)[j],
            forall|j: int| i <= j < v@.len() ==> (#[trigger] v@[j])@ == s[j],
        decreases v.len() - i,
    {
        assert(s.take(i + 1).drop_last() =~= s.take(i as int));
        assert(v@[i as int]@ == s[i as int]);
        if v[i].name.is_none() {
            if used < names.len() {
                assert(t[used as int] == names@[used as int]@);
                v[i].name = Some(names[used].clone());
            }
            used += 1;
        }
        assert(v@[i as int]@ == named(s, t)[i as int]);
        i += 1;
    }
    assert(seq_view(v@) =~= named(s, t));
}

/// The state with its scenes in order: every document has something to show, and a document has
/// either no declared scenes or nothing outside of them.
pub open spec fn settled(c: CtxView, names: Seq<Seq<char>>) -> Result<CtxView, FaultView> {
    let scenes = sized(c.scenes, 0, (c.config.width, c.config.height));
    let c1 = CtxView { slides: at_least_a_pause(c.slides), scenes, ..c };
    if has_explicit(scenes) && root_owns(scenes) {
        Err(mixed_fault())
    } else {
        let kept = if has_explicit(scenes) {
            explicit(scenes)
        } else {
            scenes
        };
        switched(CtxView { scenes: named(kept, names), ..c1 })
    }
}

fn settle(ctx: ParseCtx, names: &Vec<String>) -> (r: Result<ParseCtx, Fault>)
    ensures
        match r {
            Ok(c) => settled(ctx@, texts(names@)) == Ok::<CtxView, FaultView>(c@),
            Err(f) => settled(ctx@, texts(names@)) == Err::<CtxView, FaultView>(f@),
        },
{
    let ghost c0 = ctx@;
    let mut ctx = ctx;
    if ctx.slides.len() == 0 {
        let actions: Vec<crate::scene::Action> = Vec::new();
        assert(seq_view(actions@) =~= Seq::<crate::scene::ActionView>::empty());
        let ghost nothing = seq_view(ctx.slides@);
        ctx.slides.push(Slide { start_ms: 0, duration_ms: 500, actions, loc: None });
        assert(nothing =~= Seq::<SlideView>::empty());
        assert(seq_view(ctx.slides@) =~= at_least_a_pause(c0.slides));
    }
    let i: usize = find_scene(&ctx.scenes, 0);
    if i < ctx.scenes.len() {
        let size = (ctx.config.width, ctx.config.height);
        assert(c0.scenes[i as int] == ctx.scenes@[i as int]@);
        ctx.scenes[i].page_size = Some(size);
        assert(seq_view(ctx.scenes@) =~= sized(c0.scenes, 0, size));
    }
    let ghost scenes = sized(c0.scenes, 0, (c0.config.width, c0.config.height));
    assert(seq_view(ctx.scenes@) == scenes);
    if any_explicit(&ctx.scenes) {
        let k: usize = find_scene(&ctx.scenes, 0);
        if k < ctx.scenes.len() {
            assert(scenes[k as int] == ctx.scenes@[k as int]@);
            if ctx.scenes[k].owns_labels.len() > 0 {
                return Err(
                    Fault::Scene {
                        message:
                            "a document that defines explicit `#scene(...)` calls must not also contain content at the document root; either put all content inside scenes (parallel scenes, no root content) or keep root content and let the whole document be a single scene (no explicit `#scene` call)".to_owned(),
                        at: None,
                    },
                );
            }
        }
        let kept = keep_explicit(&mut ctx.scenes);
        ctx.scenes = kept;
    }
    name_scenes(&mut ctx.scenes, names);
    finalize_scene_switching(ctx)
}

// ---------------------------------------------------------------- everything together

/// The scene of a finished parse.
pub open spec fn scene_of(c: CtxView, path: Seq<char>, x: ExpandedView) -> SceneView {
    SceneView {
        slides: c.slides,
        items: c.items,
        content_timeline: c.content_timeline,
        morph_pairs: c.morph_pairs,
        transform_plans: c.transform_plans,
        initial: c.initial,
        audio: c.audio,
        imports: c.imports,
        page_size: Some((c.config.width, c.config.height)),
        subtitles: c.subtitles,
        counters: c.counters,
        counter_events: c.counter_events,
        kcdefs: c.kcdefs,
        kc_events: c.kc_events,
        scopes: c.scopes,
        scenes: c.scenes,
        groups: c.groups,
        file_path: path,
        source: x,
        mobject_body: c.mobject_body_ranges,
        scene_call: c.scene_call_ranges,
        subtitle_call: c.subtitle_call_ranges,
        label_locs: c.label_locs,
        name_ref_locs: c.name_ref_locs,
        config: c.config,
        warnings: c.warnings,
        private_metadata: crate::meta::default_meta(),
    }
}

/// The scene of an expanded document, or what keeps it from having one.
pub open spec fn scene_parsed(
    path: Seq<char>,
    x: ExpandedView,
    config: GlobalConfig,
    names: Seq<Seq<char>>,
    policy: VersionPolicy,
) -> Result<SceneView, PauseView> {
    let c = walked(fresh(x.text, config), document(x.text));
    match c.pending_error {
        Some(f) => Err(PauseView::Error(placed(path, x, f))),
        None => {
            let c1 = wound_up(c);
            match admitted(c1, policy) {
                Err(Ok(f)) => Err(PauseView::Error(placed(path, x, f))),
                Err(Err(v)) => Err(PauseView::Version(v)),
                Ok(_) => match settled(c1, names) {
                    Err(f) => Err(PauseView::Error(placed(path, x, f))),
                    Ok(c2) => Ok(scene_of(c2, path, x)),
                },
            }
        },
    }
}

/// The scene of a document, or what keeps it from having one.
pub open spec fn parsed(input: Input, policy: VersionPolicy) -> Result<SceneView, PauseView> {
    let root = LinkView {
        canon: input.canon@,
        from: frame_at(
            input.path@,
            input.source@,
            Span { start: 0, end: vstd::utf8::encode_utf8(input.source@).len() as usize },
        ),
    };
    match expanded(seq_view(input.files@), input.path@, input.source@, 0, seq![root]) {
        Err(StopView::Missing { from, rel }) => Err(PauseView::File { from, rel }),
        Err(StopView::Error(e)) => Err(PauseView::Error(e)),
        Ok(x) => scene_parsed(input.path@, x, input.config, texts(input.names@), policy),
    }
}

fn parse_expanded(
    path: &str,
    x: Expanded,
    config: GlobalConfig,
    names: &Vec<String>,
    policy: &VersionPolicy,
) -> (r: Result<Scene, Pause>)
    ensures
        match r {
            Ok(s) => scene_parsed(path@, x@, config, texts(names@), *policy) == Ok::<
                SceneView,
                PauseView,
            >(s@),
            Err(p) => scene_parsed(path@, x@, config, texts(names@), *policy) == Err::<
                SceneView,
                PauseView,
            >(p@),
        },
{
    let root = parse_document(x.text.as_str());
    let mut ctx = fresh_ctx(x.text.as_str(), config);
    walk(&root, &mut ctx);
    let mut pending: Option<Fault> = None;
    let ghost walked_ctx = ctx@;
    std::mem::swap(&mut pending, &mut ctx.pending_error);
    if let Some(f) = pending {
        return Err(Pause::Error(place_fault(path, &x, f)));
    }
    assert(ctx@ == walked_ctx);
    wind_up(&mut ctx);
    match check_package(&ctx, policy) {
        Ok(_) => {},
        Err(Ok(f)) => {
            return Err(Pause::Error(place_fault(path, &x, f)));
        },
        Err(Err(v)) => {
            return Err(Pause::Version(v));
        },
    }
    match settle(ctx, names) {
        Err(f) => Err(Pause::Error(place_fault(path, &x, f))),
        Ok(c) => {
            let page_size = Some((c.config.width, c.config.height));
            Ok(
                Scene {
                    slides: c.slides,
                    items: c.items,
                    content_timeline: c.content_timeline,
                    morph_pairs: c.morph_pairs,
                    transform_plans: c.transform_plans,
                    initial: c.initial,
                    audio: c.audio,
                    imports: c.imports,
                    page_size,
                    subtitles: c.subtitles,
                    counters: c.counters,
                    counter_events: c.counter_events,
                    kcdefs: c.kcdefs,
                    kc_events: c.kc_events,
                    scopes: c.scopes,
                    scenes: c.scenes,
                    groups: c.groups,
                    artifacts: ParseArtifacts {
                        file_path: path.to_owned(),
                        source: x,
                        mobject_body: c.mobject_body_ranges,
                        scene_call: c.scene_call_ranges,
                        subtitle_call: c.subtitle_call_ranges,
                        label_locs: c.label_locs,
                        name_ref_locs: c.name_ref_locs,
                        config: c.config,
                    },
                    warnings: c.warnings,
                    private_metadata: PrivateMeta::default(),
                },
            )
        },
    }
}

/// Parses a document into a scene.
///
/// Where a file or a verdict on a version is needed that was not handed in, the result says
/// which; the parse can be run again with it.
pub fn parse_tyx(input: &Input, policy: &VersionPolicy) -> (r: Result<Scene, Pause>)
    ensures
        match r {
            Ok(s) => parsed(*input, *policy) == Ok::<SceneView, PauseView>(s@),
            Err(p) => parsed(*input, *policy) == Err::<SceneView, PauseView>(p@),
        },
{
    let whole = Span { start: 0, end: input.source.as_str().as_bytes().len() };
    let from = crate::includes::make_frame(input.path.as_str(), input.source.as_str(), whole);
    let mut chain: Vec<Link> = Vec::new();
    chain.push(Link { canon: input.canon.clone(), from });
    proof {
        assert(seq_view(chain@) =~= seq![
            LinkView {
                canon: input.canon@,
                from: frame_at(input.path@, input.source@, whole),
            },
        ]);
    }
    match expand_includes(
        &input.files,
        input.path.as_str(),
        input.source.as_str(),
        0,
        &mut chain,
    ) {
        Err(Stop::Missing { from, rel }) => Err(Pause::File { from, rel }),
        Err(Stop::Error(e)) => Err(Pause::Error(e)),
        Ok(x) => parse_expanded(input.path.as_str(), x, input.config, &input.names, policy),
    }
}

// ---------------------------------------------------------------- laws

proof fn lemma_same_ids(s: Seq<SceneInfoView>, t: Seq<SceneInfoView>, id: usize)
    requires
        s.len() == t.len(),
        forall|i: int| 0 <= i < s.len() ==> (#[trigger] s[i]).id == t[i].id,
    ensures
        scene_index(s, id) == scene_index(t, id),
    decreases s.len(),
{
    if s.len() > 0 && s[0].id != id {
        let s1 = s.subrange(1, s.len() as int);
        let t1 = t.subrange(1, t.len() as int);
        assert forall|i: int| 0 <= i < s1.len() implies (#[trigger] s1[i]).id == t1[i].id by {
            assert(s1[i] == s[i + 1]);
            assert(t1[i] == t[i + 1]);
        }
        lemma_same_ids(s1, t1, id);
    }
}

proof fn lemma_distributed_ids(
    s: Seq<SceneInfoView>,
    label_scene: Map<Seq<char>, usize>,
    order: Seq<Seq<char>>,
)
    ensures
        distributed(s, label_scene, order).len() == s.len(),
        forall|i: int|
            0 <= i < s.len() ==> (#[trigger] distributed(s, label_scene, order)[i]).id == s[i].id,
    decreases order.len(),
{
    if order.len() > 0 {
        lemma_distributed_ids(s, label_scene, order.drop_last());
    }
}

proof fn lemma_scene_index(s: Seq<SceneInfoView>, id: usize)
    ensures
        0 <= scene_index(s, id) <= s.len(),
        scene_index(s, id) < s.len() ==> s[scene_index(s, id)].id == id,
    decreases s.len(),
{
    if s.len() > 0 && s[0].id != id {
        lemma_scene_index(s.subrange(1, s.len() as int), id);
    }
}

/// A scene owns the labels that belong to it in the order in which they were declared.
pub proof fn law_labels_keep_their_order(
    s: Seq<SceneInfoView>,
    label_scene: Map<Seq<char>, usize>,
    order: Seq<Seq<char>>,
    id: usize,
)
    requires
        scene_index(s, id) < s.len(),
    ensures
        distributed(s, label_scene, order)[scene_index(s, id)].owns_labels == s[scene_index(
            s,
            id,
        )].owns_labels + order.filter(|l: Seq<char>| owner_of(label_scene, l) == id),
    decreases order.len(),
{
    let i = scene_index(s, id);
    let mine = |l: Seq<char>| owner_of(label_scene, l) == id;
    lemma_scene_index(s, id);
    reveal(Seq::filter);
    if order.len() == 0 {
        assert(s[i].owns_labels + order.filter(mine) =~= s[i].owns_labels);
    } else {
        let rest = order.drop_last();
        let before = distributed(s, label_scene, rest);
        law_labels_keep_their_order(s, label_scene, rest, id);
        lemma_distributed_ids(s, label_scene, rest);
        lemma_same_ids(s, before, id);
        let owner = owner_of(label_scene, order.last());
        lemma_scene_index(before, owner);
        if owner == id {
            assert(order.filter(mine) == rest.filter(mine).push(order.last()));
            assert(distributed(s, label_scene, order)[i].owns_labels =~= s[i].owns_labels
                + order.filter(mine));
        } else {
            assert(scene_index(before, owner) != i);
            assert(distributed(s, label_scene, order)[i] == before[i]);
        }
    }
}

/// Every scene has something to play: a parse never leaves the timeline empty.
pub proof fn law_always_a_slide(c: CtxView, names: Seq<Seq<char>>)
    ensures
        settled(c, names) matches Ok(d) ==> d.slides.len() > 0,
{
    if settled(c, names) is Ok {
        let scenes = sized(c.scenes, 0, (c.config.width, c.config.height));
        let kept = if has_explicit(scenes) {
            explicit(scenes)
        } else {
            scenes
        };
        let d = CtxView {
            slides: at_least_a_pause(c.slides),
            scenes: named(kept, names),
            ..c
        };
        if crate::switching::has_switch(d.slides) {
            let picks = crate::switching::picked(d.slides, d.scenes, 0, 0);
            crate::switching::law_playing_keeps_slides(d, picks);
            assert(picks.len() > 0);
        }
    }
}

proof fn lemma_explicit(s: Seq<SceneInfoView>)
    ensures
        forall|i: int| 0 <= i < explicit(s).len() ==> (#[trigger] explicit(s)[i]).id != 0,
    decreases s.len(),
{
    if s.len() > 0 {
        lemma_explicit(s.drop_last());
    }
}

/// A parsed document has declared scenes only, or the scene of the whole document only.
pub proof fn law_scenes_or_document(c: CtxView, names: Seq<Seq<char>>)
    ensures
        settled(c, names) matches Ok(d) ==> (forall|i: int|
            0 <= i < d.scenes.len() ==> (#[trigger] d.scenes[i]).id != 0) || (forall|i: int|
            0 <= i < d.scenes.len() ==> (#[trigger] d.scenes[i]).id == 0),
{
    if settled(c, names) is Ok {
        let scenes = sized(c.scenes, 0, (c.config.width, c.config.height));
        lemma_explicit(scenes);
        let kept = if has_explicit(scenes) {
            explicit(scenes)
        } else {
            scenes
        };
        let d0 = CtxView {
            slides: at_least_a_pause(c.slides),
            scenes: named(kept, names),
            ..c
        };
        let d = settled(c, names)->Ok_0;
        assert(d.scenes.len() == kept.len());
        assert forall|i: int| 0 <= i < d.scenes.len() implies (#[trigger] d.scenes[i]).id
            == kept[i].id by {
            assert(d0.scenes[i].id == kept[i].id);
        }
    }
}

proof fn lemma_unnamed(s: Seq<SceneInfoView>)
    ensures
        unnamed(s) <= s.len(),
    decreases s.len(),
{
    if s.len() > 0 {
        lemma_unnamed(s.drop_last());
    }
}

proof fn lemma_settled_names(c: CtxView, names: Seq<Seq<char>>, i: int)
    requires
        settled(c, names) matches Ok(d) && 0 <= i < d.scenes.len() && d.scenes.len() <= names.len(),
    ensures
        settled(c, names)->Ok_0.scenes[i].name is Some,
{
    let scenes = sized(c.scenes, 0, (c.config.width, c.config.height));
    let kept = if has_explicit(scenes) {
        explicit(scenes)
    } else {
        scenes
    };
    let d0 = CtxView { slides: at_least_a_pause(c.slides), scenes: named(kept, names), ..c };
    let d = settled(c, names)->Ok_0;
    assert(d.scenes.len() == kept.len());
    lemma_unnamed(kept.take(i));
    assert(d0.scenes[i].name is Some);
}

/// Every scene of a parsed document has a name, where as many names were handed in as there are
/// scenes.
pub proof fn law_every_scene_named(input: Input, policy: VersionPolicy, i: int)
    requires
        parsed(input, policy) matches Ok(scene) && 0 <= i < scene.scenes.len()
            && scene.scenes.len() <= input.names@.len(),
    ensures
        parsed(input, policy)->Ok_0.scenes[i].name is Some,
{
    let root = LinkView {
        canon: input.canon@,
        from: frame_at(
            input.path@,
            input.source@,
            Span { start: 0, end: vstd::utf8::encode_utf8(input.source@).len() as usize },
        ),
    };
    let x = expanded(seq_view(input.files@), input.path@, input.source@, 0, seq![root])->Ok_0;
    let c = walked(fresh(x.text, input.config), document(x.text));
    lemma_settled_names(wound_up(c), texts(input.names@), i);
}

} // verus!
