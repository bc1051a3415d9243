//! Pulling in other files.
//!
//! An `include` of a file is replaced by what the file holds, so that the whole animation can be
//! read as one document. The files themselves are handed in; where one is missing, the expansion
//! says which.

use vstd::prelude::*;
use vstd::string::*;
use vstd::utf8::encode_utf8;
use crate::composite::{hashed_span, hashed_span_of};
use crate::diag::{CandyError, ErrorView, FrameView, LocView, SourceLoc, TraceFrame};
use crate::expr::{find_first_expr, find_last_expr, first_expr, last_expr};
use crate::scene::{lemma_seq_view_push, seq_view, Span};
use crate::syntax::{
    document, lemma_nodes_view, node_view, nodes_view, opt_text, parse_document, Kind, Node,
    NodeView,
};
use crate::text::{chars_of, join3, lemma_utf8_concat, same, string_of};

verus! {

broadcast use {lemma_nodes_view, lemma_seq_view_push};

/// How deep includes may be nested.
pub const MAX_INCLUDE_DEPTH: usize = 64;

// ---------------------------------------------------------------- lines

/// How many line ends there are among the bytes.
pub open spec fn line_ends(b: Seq<u8>) -> nat
    decreases b.len(),
{
    if b.len() == 0 {
        0
    } else {
        line_ends(b.drop_last()) + if b.last() == 0x0a {
            1nat
        } else {
            0
        }
    }
}

/// The number of the line that a byte stands in, from 1.
pub open spec fn line_number(source: Seq<char>, at: int) -> usize {
    let b = encode_utf8(source);
    let n = line_ends(b.take(if at < b.len() {
        at
    } else {
        b.len() as int
    }));
    if n < usize::MAX {
        (n + 1) as usize
    } else {
        usize::MAX
    }
}

proof fn lemma_line_ends(b: Seq<u8>)
    ensures
        line_ends(b) <= b.len(),
    decreases b.len(),
{
    if b.len() > 0 {
        lemma_line_ends(b.drop_last());
    }
}

fn find_line_number(source: &str, at: usize) -> (r: usize)
    ensures
        r == line_number(source@, at as int),
{
    let b = source.as_bytes();
    let end: usize = if at < b.len() {
        at
    } else {
        b.len()
    };
    let mut n: usize = 0;
    let mut i: usize = 0;
    assert(b@.take(0) =~= Seq::<u8>::empty());
    while i < end
        invariant
            i <= end <= b@.len(),
            n == line_ends(b@.take(i as int)),
            n <= i,
        decreases end - i,
    {
        assert(b@.take(i + 1).drop_last() =~= b@.take(i as int));
        if b[i] == 0x0a {
            n += 1;
        }
        i += 1;
    }
    if n < usize::MAX {
        n + 1
    } else {
        usize::MAX
    }
}

/// The line number `k` of a text, from 0, without its end.
pub open spec fn kth_line(s: Seq<char>, k: nat) -> Seq<char>
    decreases s.len(),
{
    if s.len() == 0 {
        Seq::empty()
    } else if s[0] == '\n' {
        if k == 0 {
            Seq::empty()
        } else {
            kth_line(s.drop_first(), (k - 1) as nat)
        }
    } else if k == 0 {
        seq![s[0]] + kth_line(s.drop_first(), 0)
    } else {
        kth_line(s.drop_first(), k)
    }
}

fn find_line(source: &str, k: usize) -> (r: String)
    ensures
        r@ == kth_line(source@, k as nat),
{
    let s = chars_of(source);
    let ghost all = s@;
    let mut line: Vec<char> = Vec::new();
    let mut left: usize = k;
    let mut i: usize = 0;
    assert(all.subrange(0, all.len() as int) =~= all);
    assert(line@ + kth_line(all, k as nat) =~= kth_line(all, k as nat));
    while i < s.len()
        invariant
            i <= s@.len(),
            all == s@,
            all == source@,
            line@ + kth_line(all.subrange(i as int, all.len() as int), left as nat) == kth_line(
                all,
                k as nat,
            ),
        decreases s.len() - i,
    {
        let ghost rest = all.subrange(i as int, all.len() as int);
        assert(rest.drop_first() =~= all.subrange(i + 1, all.len() as int));
        assert(rest[0] == s@[i as int]);
        if s[i] == '\n' {
            if left == 0 {
                assert(line@ + Seq::<char>::empty() =~= line@);
                return string_of(line.as_slice());
            }
            left -= 1;
        } else if left == 0 {
            let ghost before = line@;
            line.push(s[i]);
            assert(line@ + kth_line(rest.drop_first(), 0) =~= before + (seq![rest[0]] + kth_line(
                rest.drop_first(),
                0,
            )));
        }
        i += 1;
    }
    assert(line@ + Seq::<char>::empty() =~= line@);
    string_of(line.as_slice())
}

/// A place in a file.
pub open spec fn frame_at(path: Seq<char>, source: Seq<char>, at: Span) -> FrameView {
    let line = line_number(source, at.start as int);
    FrameView { path, span: at, line, line_text: kth_line(source, (line - 1) as nat) }
}

pub fn make_frame(path: &str, source: &str, at: Span) -> (r: TraceFrame)
    ensures
        r@ == frame_at(path@, source@, at),
{
    let line: usize = find_line_number(source, at.start);
    let line_text = find_line(source, line - 1);
    TraceFrame { path: path.to_owned(), span: at, line, line_text }
}

/// A place in a file, with the places where the file is pulled in.
pub open spec fn loc_at(
    path: Seq<char>,
    source: Seq<char>,
    at: Span,
    trace: Seq<FrameView>,
) -> LocView {
    let f = frame_at(path, source, at);
    LocView { path, span: at, line: f.line, line_text: f.line_text, include_trace: trace }
}

fn copy_frame(f: &TraceFrame) -> (r: TraceFrame)
    ensures
        r@ == f@,
{
    TraceFrame {
        path: f.path.clone(),
        span: f.span,
        line: f.line,
        line_text: f.line_text.clone(),
    }
}

fn copy_frames(v: &Vec<TraceFrame>) -> (r: Vec<TraceFrame>)
    ensures
        seq_view(r@) == seq_view(v@),
{
    let mut r: Vec<TraceFrame> = Vec::new();
    let mut i: usize = 0;
    while i < v.len()
        invariant
            i <= v@.len(),
            seq_view(r@) == seq_view(v@).take(i as int),
        decreases v.len() - i,
    {
        r.push(copy_frame(&v[i]));
        assert(seq_view(v@).take(i + 1) =~= seq_view(v@).take(i as int).push(v@[i as int]@));
        i += 1;
    }
    assert(seq_view(v@).take(v@.len() as int) =~= seq_view(v@));
    r
}

// ---------------------------------------------------------------- files

/// What became of reading a file.
#[derive(Debug)]
pub enum IncludedFile {
    /// The file as it is called, in canonical form, and what it holds.
    Read { path: String, canon: String, content: String },
    /// Why it could not be read.
    Unreadable(String),
}

/// The value of an [`IncludedFile`].
pub enum FileView {
    Read { path: Seq<char>, canon: Seq<char>, content: Seq<char> },
    Unreadable(Seq<char>),
}

impl View for IncludedFile {
    type V = FileView;

    open spec fn view(&self) -> FileView {
        match *self {
            IncludedFile::Read { path, canon, content } => FileView::Read {
                path: path@,
                canon: canon@,
                content: content@,
            },
            IncludedFile::Unreadable(why) => FileView::Unreadable(why@),
        }
    }
}

/// A file that another one asks for.
#[derive(Debug)]
pub struct FileEntry {
    /// The file that asks.
    pub from: String,
    /// The name by which it asks.
    pub rel: String,
    pub file: IncludedFile,
}

/// The value of a [`FileEntry`].
pub struct EntryView {
    pub from: Seq<char>,
    pub rel: Seq<char>,
    pub file: FileView,
}

impl View for FileEntry {
    type V = EntryView;

    open spec fn view(&self) -> EntryView {
        EntryView { from: self.from@, rel: self.rel@, file: self.file@ }
    }
}

/// The file that `from` asks for by the name `rel`: the last entry about it.
pub open spec fn file_of(s: Seq<EntryView>, from: Seq<char>, rel: Seq<char>) -> Option<FileView>
    decreases s.len(),
{
    if s.len() == 0 {
        None
    } else if s.last().from == from && s.last().rel == rel {
        Some(s.last().file)
    } else {
        file_of(s.drop_last(), from, rel)
    }
}

/// The value of an optional file.
pub open spec fn opt_file(f: Option<&IncludedFile>) -> Option<FileView> {
    match f {
        Some(f) => Some(f@),
        None => None,
    }
}

fn find_file<'a>(v: &'a Vec<FileEntry>, from: &str, rel: &str) -> (r: Option<&'a IncludedFile>)
    ensures
        opt_file(r) == file_of(seq_view(v@), from@, rel@),
{
    let ghost s = seq_view(v@);
    let mut i: usize = v.len();
    assert(s.take(s.len() as int) =~= s);
    while i > 0
        invariant
            i <= v@.len(),
            s == seq_view(v@),
            file_of(s, from@, rel@) == file_of(s.take(i as int), from@, rel@),
        decreases i,
    {
        assert(s.take(i as int).drop_last() =~= s.take(i - 1));
        assert(s[i - 1] == v@[i - 1]@);
        if same(v[i - 1].from.as_str(), from) && same(v[i - 1].rel.as_str(), rel) {
            return Some(&v[i - 1].file);
        }
        i -= 1;
    }
    None
}

/// Why an expansion stops.
#[derive(Debug)]
pub enum Stop {
    /// The file that `from` asks for by the name `rel` has to be handed in.
    Missing { from: String, rel: String },
    Error(CandyError),
}

/// The value of a [`Stop`].
pub enum StopView {
    Missing { from: Seq<char>, rel: Seq<char> },
    Error(ErrorView),
}

impl View for Stop {
    type V = StopView;

    open spec fn view(&self) -> StopView {
        match *self {
            Stop::Missing { from, rel } => StopView::Missing { from: from@, rel: rel@ },
            Stop::Error(e) => StopView::Error(e@),
        }
    }
}

// ---------------------------------------------------------------- regions

/// A part of the expanded text that came from a file.
#[derive(Debug)]
pub struct IncludeRegion {
    /// First byte in the expanded text.
    pub start: usize,
    /// Byte behind the last one.
    pub end: usize,
    /// The file.
    pub path: String,
    /// What stands there: the file, itself expanded.
    pub text: String,
    /// Where the file is pulled in, the outermost place first.
    pub trace: Vec<TraceFrame>,
}

/// The value of an [`IncludeRegion`].
#[verifier::ext_equal]
pub struct RegionView {
    pub start: nat,
    pub end: nat,
    pub path: Seq<char>,
    pub text: Seq<char>,
    pub trace: Seq<FrameView>,
}

impl View for IncludeRegion {
    type V = RegionView;

    open spec fn view(&self) -> RegionView {
        RegionView {
            start: self.start as nat,
            end: self.end as nat,
            path: self.path@,
            text: self.text@,
            trace: seq_view(self.trace@),
        }
    }
}

/// A document with everything that it pulls in.
#[derive(Debug)]
pub struct Expanded {
    pub text: String,
    /// A region stands in front of those inside it.
    pub regions: Vec<IncludeRegion>,
}

/// The value of an [`Expanded`].
#[verifier::ext_equal]
pub struct ExpandedView {
    pub text: Seq<char>,
    pub regions: Seq<RegionView>,
}

impl View for Expanded {
    type V = ExpandedView;

    open spec fn view(&self) -> ExpandedView {
        ExpandedView { text: self.text@, regions: seq_view(self.regions@) }
    }
}

/// A file on the way from the document to the file that is being expanded.
#[derive(Debug)]
pub struct Link {
    pub canon: String,
    /// Where it is pulled in.
    pub from: TraceFrame,
}

/// The value of a [`Link`].
pub struct LinkView {
    pub canon: Seq<char>,
    pub from: FrameView,
}

impl View for Link {
    type V = LinkView;

    open spec fn view(&self) -> LinkView {
        LinkView { canon: self.canon@, from: self.from@ }
    }
}

/// Whether a file is on the way.
pub open spec fn on_chain(chain: Seq<LinkView>, canon: Seq<char>) -> bool {
    exists|i: int| 0 <= i < chain.len() && (#[trigger] chain[i]).canon == canon
}

fn is_on_chain(v: &Vec<Link>, canon: &str) -> (r: bool)
    ensures
        r == on_chain(seq_view(v@), canon@),
{
    let ghost s = seq_view(v@);
    let mut i: usize = 0;
    while i < v.len()
        invariant
            i <= v@.len(),
            s == seq_view(v@),
            forall|j: int| 0 <= j < i ==> (#[trigger] s[j]).canon != canon@,
        decreases v.len() - i,
    {
        assert(s[i as int] == v@[i as int]@);
        if same(v[i].canon.as_str(), canon) {
            return true;
        }
        i += 1;
    }
    false
}

/// The files on the way, with arrows between them.
pub open spec fn arrows(chain: Seq<LinkView>) -> Seq<char>
    decreases chain.len(),
{
    if chain.len() == 0 {
        Seq::empty()
    } else if chain.len() == 1 {
        chain[0].canon
    } else {
        arrows(chain.drop_last()) + " -> "@ + chain.last().canon
    }
}

fn write_arrows(v: &Vec<Link>) -> (r: String)
    ensures
        r@ == arrows(seq_view(v@)),
{
    let ghost s = seq_view(v@);
    let mut r = String::new();
    let mut i: usize = 0;
    assert(s.take(0) =~= Seq::<LinkView>::empty());
    while i < v.len()
        invariant
            i <= v@.len(),
            s == seq_view(v@),
            r@ == arrows(s.take(i as int)),
        decreases v.len() - i,
    {
        assert(s.take(i + 1).drop_last() =~= s.take(i as int));
        assert(s[i as int] == v@[i as int]@);
        if i == 0 {
            r = v[i].canon.clone();
        } else {
            r = join3(r.as_str(), " -> ", v[i].canon.as_str());
        }
        i += 1;
    }
    assert(s.take(s.len() as int) =~= s);
    r
}

/// The places where the files on the way are pulled in. The first link is the document itself.
pub open spec fn outer_frames(chain: Seq<LinkView>) -> Seq<FrameView> {
    Seq::new(
        if chain.len() > 0 {
            (chain.len() - 1) as nat
        } else {
            0
        },
        |i: int| chain[i + 1].from,
    )
}

fn find_outer_frames(v: &Vec<Link>) -> (r: Vec<TraceFrame>)
    ensures
        seq_view(r@) == outer_frames(seq_view(v@)),
{
    let ghost s = seq_view(v@);
    let mut r: Vec<TraceFrame> = Vec::new();
    let mut i: usize = 1;
    while i < v.len()
        invariant
            1 <= i,
            v@.len() > 0 ==> i <= v@.len(),
            v@.len() == 0 ==> i == 1,
            s == seq_view(v@),
            seq_view(r@) == outer_frames(s).take(i - 1),
        decreases v.len() - i,
    {
        r.push(copy_frame(&v[i].from));
        assert(s[i as int] == v@[i as int]@);
        assert(outer_frames(s).take(i as int) =~= outer_frames(s).take(i - 1).push(
            s[i as int].from,
        ));
        i += 1;
    }
    assert(outer_frames(s).take(outer_frames(s).len() as int) =~= outer_frames(s));
    assert(seq_view(r@) =~= outer_frames(s));
    r
}

// ---------------------------------------------------------------- expansion

/// What `format!` makes of a text with `{:?}`.
pub uninterp spec fn debug_form(s: Seq<char>) -> Seq<char>;

/// Calls `format!` with `{:?}` on a text. The result is a function of the text.
#[verifier::external_body]
pub(crate) fn to_debug_form(s: &str) -> (r: String)
    ensures
        r@ == debug_form(s@),
{
    format!("{:?}", s)
}

/// The name of the file that an `include` asks for, if it is a string.
pub open spec fn include_path(n: NodeView) -> Option<Seq<char>> {
    if n.kind != Kind::ModuleInclude {
        None
    } else {
        match last_expr(n.children) {
            Some(e) => if e.kind == Kind::Parenthesized {
                match first_expr(e.children) {
                    Some(x) => x.value,
                    None => None,
                }
            } else {
                e.value
            },
            None => None,
        }
    }
}

fn copy_value(v: &Option<String>) -> (r: Option<String>)
    ensures
        opt_text(r) == opt_text(*v),
{
    match v {
        Some(s) => Some(s.clone()),
        None => None,
    }
}

/// Reads the name of the file that an `include` asks for.
pub fn module_include_path(n: &Node) -> (r: Option<String>)
    ensures
        opt_text(r) == include_path(n@),
{
    if n.kind != Kind::ModuleInclude {
        return None;
    }
    match find_last_expr(&n.children) {
        Some(e) => if e.kind == Kind::Parenthesized {
            match find_first_expr(&e.children) {
                Some(x) => copy_value(&x.value),
                None => None,
            }
        } else {
            copy_value(&e.value)
        },
        None => None,
    }
}

/// The text built so far. `done` ends with the last file that was pulled in.
#[verifier::ext_equal]
pub struct Built {
    pub done: Seq<char>,
    pub tail: Seq<char>,
    pub regions: Seq<RegionView>,
}

struct Builder {
    done: String,
    tail: Vec<char>,
    regions: Vec<IncludeRegion>,
}

impl View for Builder {
    type V = Built;

    closed spec fn view(&self) -> Built {
        Built { done: self.done@, tail: self.tail@, regions: seq_view(self.regions@) }
    }
}

/// A text without the hash sign at its end.
pub open spec fn unhashed(s: Seq<char>) -> Seq<char> {
    if s.len() > 0 && s.last() == '#' {
        s.drop_last()
    } else {
        s
    }
}

/// A region inside a file, seen from the file that pulls that file in.
pub open spec fn lifted(r: RegionView, by: nat, from: FrameView) -> RegionView {
    RegionView {
        start: r.start + by,
        end: r.end + by,
        trace: seq![from] + r.trace,
        ..r
    }
}

/// The regions inside a file, seen from the file that pulls that file in.
pub open spec fn all_lifted(s: Seq<RegionView>, by: nat, from: FrameView) -> Seq<RegionView> {
    s.map_values(|r: RegionView| lifted(r, by, from))
}

/// The text with a file pulled in at its end. The hash sign of the `include` goes with it.
pub open spec fn pulled_in(b: Built, path: Seq<char>, from: FrameView, x: ExpandedView) -> Built {
    let before = b.done + unhashed(b.tail);
    let start = encode_utf8(before).len();
    Built {
        done: before + x.text,
        tail: Seq::empty(),
        regions: b.regions.push(
            RegionView {
                start,
                end: start + encode_utf8(x.text).len(),
                path,
                text: x.text,
                trace: seq![from],
            },
        ) + all_lifted(x.regions, start, from),
    }
}

/// The error of a file that pulls itself in.
pub open spec fn circular(
    path: Seq<char>,
    source: Seq<char>,
    at: Span,
    chain: Seq<LinkView>,
    canon: Seq<char>,
) -> ErrorView {
    ErrorView::Parse(
        "circular include detected: "@ + canon + " is already included on this include path ("@
            + arrows(chain) + " -> "@ + canon
            + "). A file may only be included once along a single include chain; duplicates on different branches are allowed."@,
        Some(loc_at(path, source, at, outer_frames(chain))),
    )
}

fn circular_error(path: &str, source: &str, at: Span, chain: &Vec<Link>, canon: &str) -> (r:
    CandyError)
    ensures
        r@ == circular(path@, source@, at, seq_view(chain@), canon@),
{
    let route = write_arrows(chain);
    let start = join3(
        "circular include detected: ",
        canon,
        " is already included on this include path (",
    );
    let middle = join3(start.as_str(), route.as_str(), " -> ");
    let message = join3(
        middle.as_str(),
        canon,
        "). A file may only be included once along a single include chain; duplicates on different branches are allowed.",
    );
    let f = make_frame(path, source, at);
    let loc = SourceLoc {
        path: f.path,
        span: f.span,
        line: f.line,
        line_text: f.line_text,
        include_trace: find_outer_frames(chain),
    };
    CandyError::Parse(message, Some(loc))
}

/// A document with everything that it pulls in, or why there is none.
pub open spec fn expanded(
    files: Seq<EntryView>,
    path: Seq<char>,
    source: Seq<char>,
    depth: nat,
    chain: Seq<LinkView>,
) -> Result<ExpandedView, StopView>
    decreases (MAX_INCLUDE_DEPTH + 1 - depth), 2nat, document(source),
{
    if depth > MAX_INCLUDE_DEPTH {
        Err(
            StopView::Error(
                ErrorView::Parse(
                    "include nesting too deep (check for a cyclic include)"@,
                    None,
                ),
            ),
        )
    } else {
        let nothing = Built { done: Seq::empty(), tail: Seq::empty(), regions: Seq::empty() };
        match built(files, path, source, depth, chain, document(source), nothing) {
            Err(e) => Err(e),
            Ok(b) => if b.regions.len() == 0 {
                Ok(ExpandedView { text: source, regions: Seq::empty() })
            } else {
                Ok(ExpandedView { text: b.done + b.tail, regions: b.regions })
            },
        }
    }
}

/// The text with a file pulled in that is asked for by the name `rel`.
pub open spec fn with_file(
    files: Seq<EntryView>,
    path: Seq<char>,
    source: Seq<char>,
    depth: nat,
    chain: Seq<LinkView>,
    at: Span,
    rel: Seq<char>,
    b: Built,
) -> Result<Built, StopView>
    decreases (MAX_INCLUDE_DEPTH + 1 - depth), 0nat, document(source),
    when depth <= MAX_INCLUDE_DEPTH
{
    match file_of(files, path, rel) {
        None => Err(StopView::Missing { from: path, rel }),
        Some(FileView::Unreadable(why)) => Err(
            StopView::Error(
                ErrorView::Parse("cannot include "@ + debug_form(rel) + ": "@ + why, None),
            ),
        ),
        Some(FileView::Read { path: target, canon, content }) => if on_chain(chain, canon) {
            Err(StopView::Error(circular(path, source, at, chain, canon)))
        } else {
            let from = frame_at(path, source, at);
            match expanded(
                files,
                target,
                content,
                depth + 1,
                chain.push(LinkView { canon, from }),
            ) {
                Err(e) => Err(e),
                Ok(x) => Ok(pulled_in(b, target, from, x)),
            }
        },
    }
}

/// The text with a node at its end.
pub open spec fn built(
    files: Seq<EntryView>,
    path: Seq<char>,
    source: Seq<char>,
    depth: nat,
    chain: Seq<LinkView>,
    n: NodeView,
    b: Built,
) -> Result<Built, StopView>
    decreases (MAX_INCLUDE_DEPTH + 1 - depth), 1nat, n,
    when depth <= MAX_INCLUDE_DEPTH
{
    match include_path(n) {
        Some(rel) => with_file(files, path, source, depth, chain, hashed_span(source, n), rel, b),
        None => built_all(
            files,
            path,
            source,
            depth,
            chain,
            n.children,
            Built { tail: b.tail + n.text, ..b },
        ),
    }
}

/// The text with a list of nodes at its end.
pub open spec fn built_all(
    files: Seq<EntryView>,
    path: Seq<char>,
    source: Seq<char>,
    depth: nat,
    chain: Seq<LinkView>,
    s: Seq<NodeView>,
    b: Built,
) -> Result<Built, StopView>
    decreases (MAX_INCLUDE_DEPTH + 1 - depth), 1nat, s,
    when depth <= MAX_INCLUDE_DEPTH
{
    if s.len() == 0 {
        Ok(b)
    } else {
        match built_all(files, path, source, depth, chain, s.drop_last(), b) {
            Err(e) => Err(e),
            Ok(b1) => built(files, path, source, depth, chain, s.last(), b1),
        }
    }
}

// ---------------------------------------------------------------- regions hold their text

/// Whether the bytes of a region are those of its text.
pub open spec fn region_exact(text: Seq<char>, r: RegionView) -> bool {
    r.start <= r.end <= encode_utf8(text).len() && encode_utf8(text).subrange(
        r.start as int,
        r.end as int,
    ) == encode_utf8(r.text)
}

/// Whether the bytes of each region are those of its text.
pub open spec fn regions_exact(text: Seq<char>, s: Seq<RegionView>) -> bool {
    forall|i: int| 0 <= i < s.len() ==> region_exact(text, #[trigger] s[i])
}

proof fn lemma_exact_prefix(a: Seq<char>, b: Seq<char>, s: Seq<RegionView>)
    requires
        regions_exact(a, s),
    ensures
        regions_exact(a + b, s),
{
    lemma_utf8_concat(a, b);
    assert forall|i: int| 0 <= i < s.len() implies region_exact(a + b, #[trigger] s[i]) by {
        assert(region_exact(a, s[i]));
        assert(encode_utf8(a + b).subrange(s[i].start as int, s[i].end as int) =~= encode_utf8(
            a,
        ).subrange(s[i].start as int, s[i].end as int));
    }
}

proof fn lemma_exact_lifted(a: Seq<char>, b: Seq<char>, s: Seq<RegionView>, from: FrameView)
    requires
        regions_exact(b, s),
    ensures
        regions_exact(a + b, all_lifted(s, encode_utf8(a).len(), from)),
{
    lemma_utf8_concat(a, b);
    let by = encode_utf8(a).len();
    let t = all_lifted(s, by, from);
    assert forall|i: int| 0 <= i < t.len() implies region_exact(a + b, #[trigger] t[i]) by {
        assert(region_exact(b, s[i]));
        assert(t[i] == lifted(s[i], by, from));
        assert(encode_utf8(a + b).subrange(t[i].start as int, t[i].end as int) =~= encode_utf8(
            b,
        ).subrange(s[i].start as int, s[i].end as int));
    }
}

proof fn lemma_exact_pulled_in(b: Built, path: Seq<char>, from: FrameView, x: ExpandedView)
    requires
        regions_exact(b.done, b.regions),
        regions_exact(x.text, x.regions),
    ensures
        regions_exact(
            pulled_in(b, path, from, x).done,
            pulled_in(b, path, from, x).regions,
        ),
{
    let before = b.done + unhashed(b.tail);
    let start = encode_utf8(before).len();
    lemma_exact_prefix(b.done, unhashed(b.tail), b.regions);
    lemma_exact_prefix(before, x.text, b.regions);
    lemma_exact_lifted(before, x.text, x.regions, from);
    lemma_utf8_concat(before, x.text);
    let own = RegionView {
        start,
        end: start + encode_utf8(x.text).len(),
        path,
        text: x.text,
        trace: seq![from],
    };
    assert(encode_utf8(before + x.text).subrange(own.start as int, own.end as int)
        =~= encode_utf8(x.text));
    let nested = all_lifted(x.regions, start, from);
    let all = b.regions.push(own) + nested;
    assert forall|i: int| 0 <= i < all.len() implies region_exact(
        before + x.text,
        #[trigger] all[i],
    ) by {
        if i < b.regions.len() {
            assert(all[i] == b.regions[i]);
        } else if i == b.regions.len() {
            assert(all[i] == own);
        } else {
            assert(all[i] == nested[i - b.regions.len() - 1]);
        }
    }
}

/// Each region of an expanded document holds exactly the text of the file that it came from,
/// wherever in the document the file was pulled in and however deep.
pub proof fn law_regions_hold_their_text(
    files: Seq<EntryView>,
    path: Seq<char>,
    source: Seq<char>,
    depth: nat,
    chain: Seq<LinkView>,
)
    ensures
        match expanded(files, path, source, depth, chain) {
            Ok(x) => regions_exact(x.text, x.regions),
            Err(_) => true,
        },
    decreases (MAX_INCLUDE_DEPTH + 1 - depth), 2nat, document(source),
{
    if depth <= MAX_INCLUDE_DEPTH {
        let nothing = Built { done: Seq::empty(), tail: Seq::empty(), regions: Seq::empty() };
        lemma_built_exact(files, path, source, depth, chain, document(source), nothing);
        match built(files, path, source, depth, chain, document(source), nothing) {
            Ok(b) => {
                lemma_exact_prefix(b.done, b.tail, b.regions);
            },
            Err(_) => {},
        }
    }
}

proof fn lemma_with_file_exact(
    files: Seq<EntryView>,
    path: Seq<char>,
    source: Seq<char>,
    depth: nat,
    chain: Seq<LinkView>,
    at: Span,
    rel: Seq<char>,
    b: Built,
)
    requires
        depth <= MAX_INCLUDE_DEPTH,
        regions_exact(b.done, b.regions),
    ensures
        match with_file(files, path, source, depth, chain, at, rel, b) {
            Ok(x) => regions_exact(x.done, x.regions),
            Err(_) => true,
        },
    decreases (MAX_INCLUDE_DEPTH + 1 - depth), 0nat, document(source),
{
    match file_of(files, path, rel) {
        Some(FileView::Read { path: target, canon, content }) => {
            let from = frame_at(path, source, at);
            let longer = chain.push(LinkView { canon, from });
            law_regions_hold_their_text(files, target, content, depth + 1, longer);
            match expanded(files, target, content, depth + 1, longer) {
                Ok(x) => {
                    lemma_exact_pulled_in(b, target, from, x);
                },
                Err(_) => {},
            }
        },
        _ => {},
    }
}

proof fn lemma_built_exact(
    files: Seq<EntryView>,
    path: Seq<char>,
    source: Seq<char>,
    depth: nat,
    chain: Seq<LinkView>,
    n: NodeView,
    b: Built,
)
    requires
        depth <= MAX_INCLUDE_DEPTH,
        regions_exact(b.done, b.regions),
    ensures
        match built(files, path, source, depth, chain, n, b) {
            Ok(x) => regions_exact(x.done, x.regions),
            Err(_) => true,
        },
    decreases (MAX_INCLUDE_DEPTH + 1 - depth), 1nat, n,
{
    match include_path(n) {
        Some(rel) => {
            lemma_with_file_exact(
                files,
                path,
                source,
                depth,
                chain,
                hashed_span(source, n),
                rel,
                b,
            );
        },
        None => {
            lemma_built_all_exact(
                files,
                path,
                source,
                depth,
                chain,
                n.children,
                Built { tail: b.tail + n.text, ..b },
            );
        },
    }
}

proof fn lemma_built_all_exact(
    files: Seq<EntryView>,
    path: Seq<char>,
    source: Seq<char>,
    depth: nat,
    chain: Seq<LinkView>,
    s: Seq<NodeView>,
    b: Built,
)
    requires
        depth <= MAX_INCLUDE_DEPTH,
        regions_exact(b.done, b.regions),
    ensures
        match built_all(files, path, source, depth, chain, s, b) {
            Ok(x) => regions_exact(x.done, x.regions),
            Err(_) => true,
        },
    decreases (MAX_INCLUDE_DEPTH + 1 - depth), 1nat, s,
{
    if s.len() > 0 {
        lemma_built_all_exact(files, path, source, depth, chain, s.drop_last(), b);
        match built_all(files, path, source, depth, chain, s.drop_last(), b) {
            Ok(b1) => {
                lemma_built_exact(files, path, source, depth, chain, s.last(), b1);
            },
            Err(_) => {},
        }
    }
}

/// A document that asks for no file stays as it is.
pub proof fn law_without_includes_unchanged(
    files: Seq<EntryView>,
    path: Seq<char>,
    source: Seq<char>,
    depth: nat,
    chain: Seq<LinkView>,
)
    requires
        depth <= MAX_INCLUDE_DEPTH,
        no_includes(document(source)),
    ensures
        expanded(files, path, source, depth, chain) == Ok::<ExpandedView, StopView>(
            ExpandedView { text: source, regions: Seq::empty() },
        ),
{
    let nothing = Built { done: Seq::empty(), tail: Seq::empty(), regions: Seq::empty() };
    lemma_no_includes(files, path, source, depth, chain, document(source), nothing);
}

/// Whether no file is asked for in a tree.
pub open spec fn no_includes(n: NodeView) -> bool
    decreases n,
{
    include_path(n) is None && no_includes_in(n.children)
}

/// Whether no file is asked for in a list of trees.
pub open spec fn no_includes_in(s: Seq<NodeView>) -> bool
    decreases s,
{
    s.len() == 0 || (no_includes_in(s.drop_last()) && no_includes(s.last()))
}

proof fn lemma_no_includes(
    files: Seq<EntryView>,
    path: Seq<char>,
    source: Seq<char>,
    depth: nat,
    chain: Seq<LinkView>,
    n: NodeView,
    b: Built,
)
    requires
        depth <= MAX_INCLUDE_DEPTH,
        no_includes(n),
    ensures
        built(files, path, source, depth, chain, n, b) matches Ok(x) && x.regions == b.regions,
    decreases n,
{
    lemma_no_includes_in(
        files,
        path,
        source,
        depth,
        chain,
        n.children,
        Built { tail: b.tail + n.text, ..b },
    );
}

proof fn lemma_no_includes_in(
    files: Seq<EntryView>,
    path: Seq<char>,
    source: Seq<char>,
    depth: nat,
    chain: Seq<LinkView>,
    s: Seq<NodeView>,
    b: Built,
)
    requires
        depth <= MAX_INCLUDE_DEPTH,
        no_includes_in(s),
    ensures
        built_all(files, path, source, depth, chain, s, b) matches Ok(x) && x.regions == b.regions,
    decreases s,
{
    if s.len() > 0 {
        lemma_no_includes_in(files, path, source, depth, chain, s.drop_last(), b);
        let b1 = built_all(files, path, source, depth, chain, s.drop_last(), b)->Ok_0;
        lemma_no_includes(files, path, source, depth, chain, s.last(), b1);
    }
}

/// A file that is already on the way is never pulled in again: the expansion stops with an error
/// at the `include` that asks for it, whatever the file holds.
pub proof fn law_cycle_is_refused(
    files: Seq<EntryView>,
    path: Seq<char>,
    source: Seq<char>,
    depth: nat,
    chain: Seq<LinkView>,
    n: NodeView,
    b: Built,
)
    requires
        depth <= MAX_INCLUDE_DEPTH,
        include_path(n) is Some,
        file_of(files, path, include_path(n)->0) matches Some(f) && (f matches FileView::Read {
            canon,
            ..
        } && on_chain(chain, canon)),
    ensures
        built(files, path, source, depth, chain, n, b) matches Err(StopView::Error(
            ErrorView::Parse(_, Some(loc)),
        )) && loc.path == path && loc.span == hashed_span(source, n) && loc.include_trace
            == outer_frames(chain),
{
}

// ---------------------------------------------------------------- running it

fn lift_regions(from: Vec<IncludeRegion>, by: usize, frame: &TraceFrame, out: &mut Vec<
    IncludeRegion,
>)
    requires
        forall|i: int|
            0 <= i < from@.len() ==> (#[trigger] from@[i]).start + by <= usize::MAX && from@[i].end
                + by <= usize::MAX,
    ensures
        seq_view(final(out)@) == seq_view(old(out)@) + all_lifted(
            seq_view(from@),
            by as nat,
            frame@,
        ),
{
    let ghost s = seq_view(from@);
    let ghost t = all_lifted(s, by as nat, frame@);
    let mut i: usize = 0;
    assert(seq_view(out@) =~= seq_view(old(out)@) + t.take(0));
    while i < from.len()
        invariant
            i <= from@.len(),
            s == seq_view(from@),
            t == all_lifted(s, by as nat, frame@),
            forall|j: int|
                0 <= j < from@.len() ==> (#[trigger] from@[j]).start + by <= usize::MAX
                    && from@[j].end + by <= usize::MAX,
            seq_view(out@) == seq_view(old(out)@) + t.take(i as int),
        decreases from.len() - i,
    {
        let r = &from[i];
        let mut trace: Vec<TraceFrame> = Vec::new();
        trace.push(copy_frame(frame));
        let mut k: usize = 0;
        assert(seq_view(trace@) =~= seq![frame@] + seq_view(r.trace@).take(0));
        while k < r.trace.len()
            invariant
                k <= r.trace@.len(),
                seq_view(trace@) == seq![frame@] + seq_view(r.trace@).take(k as int),
            decreases r.trace.len() - k,
        {
            trace.push(copy_frame(&r.trace[k]));
            assert(seq_view(r.trace@).take(k + 1) =~= seq_view(r.trace@).take(k as int).push(
                r.trace@[k as int]@,
            ));
            assert(seq_view(trace@) =~= seq![frame@] + seq_view(r.trace@).take(k + 1));
            k += 1;
        }
        assert(seq_view(r.trace@).take(r.trace@.len() as int) =~= seq_view(r.trace@));
        let lifted_region = IncludeRegion {
            start: r.start + by,
            end: r.end + by,
            path: r.path.clone(),
            text: r.text.clone(),
            trace,
        };
        proof {
            assert(s[i as int] == from@[i as int]@);
            assert(lifted_region@ == t[i as int]);
            assert(t.take(i + 1) =~= t.take(i as int).push(t[i as int]));
        }
        out.push(lifted_region);
        assert(seq_view(out@) =~= seq_view(old(out)@) + t.take(i + 1));
        i += 1;
    }
    assert(t.take(t.len() as int) =~= t);
}

fn pull_in(b: &mut Builder, path: &str, from: TraceFrame, x: Expanded)
    requires
        regions_exact(x@.text, x@.regions),
    ensures
        final(b)@ == pulled_in(old(b)@, path@, from@, x@),
{
    let ghost tail0 = b.tail@;
    if b.tail.len() > 0 && b.tail[b.tail.len() - 1] == '#' {
        let _ = b.tail.pop();
    }
    assert(b.tail@ == unhashed(tail0));
    let tail = string_of(b.tail.as_slice());
    b.done.append(tail.as_str());
    let ghost before = b.done@;
    let start: usize = b.done.as_str().as_bytes().len();
    b.done.append(x.text.as_str());
    let end: usize = b.done.as_str().as_bytes().len();
    proof {
        lemma_utf8_concat(before, x.text@);
        assert forall|i: int| 0 <= i < x.regions@.len() implies (#[trigger] x.regions@[i]).start
            + start <= usize::MAX && x.regions@[i].end + start <= usize::MAX by {
            assert(region_exact(x@.text, x@.regions[i]));
        }
    }
    b.tail = Vec::new();
    let mut trace: Vec<TraceFrame> = Vec::new();
    trace.push(copy_frame(&from));
    assert(seq_view(trace@) =~= seq![from@]);
    b.regions.push(IncludeRegion { start, end, path: path.to_owned(), text: x.text, trace });
    lift_regions(x.regions, start, &from, &mut b.regions);
}

/// Replaces every `include` in a document by what the file holds, which is itself expanded first.
///
/// `chain` holds the files on the way to this one, this one last. Where a file is needed that
/// `files` does not hold, the result says which.
pub fn expand_includes(
    files: &Vec<FileEntry>,
    path: &str,
    source: &str,
    depth: usize,
    chain: &mut Vec<Link>,
) -> (r: Result<Expanded, Stop>)
    ensures
        match r {
            Ok(x) => expanded(
                seq_view(files@),
                path@,
                source@,
                depth as nat,
                seq_view(old(chain)@),
            ) == Ok::<ExpandedView, StopView>(x@) && seq_view(final(chain)@) == seq_view(
                old(chain)@,
            ),
            Err(e) => expanded(
                seq_view(files@),
                path@,
                source@,
                depth as nat,
                seq_view(old(chain)@),
            ) == Err::<ExpandedView, StopView>(e@),
        },
    decreases (MAX_INCLUDE_DEPTH + 1 - depth), 2nat, document(source@),
{
    if depth > MAX_INCLUDE_DEPTH {
        return Err(
            Stop::Error(
                CandyError::Parse(
                    "include nesting too deep (check for a cyclic include)".to_owned(),
                    None,
                ),
            ),
        );
    }
    let root = parse_document(source);
    let mut b = Builder { done: String::new(), tail: Vec::new(), regions: Vec::new() };
    assert(b@ =~= Built { done: Seq::empty(), tail: Seq::empty(), regions: Seq::empty() });
    build(files, path, source, depth, chain, &root, &mut b)?;
    if b.regions.len() == 0 {
        let regions: Vec<IncludeRegion> = Vec::new();
        assert(seq_view(regions@) =~= Seq::<RegionView>::empty());
        return Ok(Expanded { text: source.to_owned(), regions });
    }
    let tail = string_of(b.tail.as_slice());
    let mut text = b.done;
    text.append(tail.as_str());
    Ok(Expanded { text, regions: b.regions })
}

fn include_file(
    files: &Vec<FileEntry>,
    path: &str,
    source: &str,
    depth: usize,
    chain: &mut Vec<Link>,
    at: Span,
    rel: &str,
    b: &mut Builder,
) -> (r: Result<(), Stop>)
    requires
        depth <= MAX_INCLUDE_DEPTH,
    ensures
        match r {
            Ok(_) => with_file(
                seq_view(files@),
                path@,
                source@,
                depth as nat,
                seq_view(old(chain)@),
                at,
                rel@,
                old(b)@,
            ) == Ok::<Built, StopView>(final(b)@) && seq_view(final(chain)@) == seq_view(
                old(chain)@,
            ),
            Err(e) => with_file(
                seq_view(files@),
                path@,
                source@,
                depth as nat,
                seq_view(old(chain)@),
                at,
                rel@,
                old(b)@,
            ) == Err::<Built, StopView>(e@),
        },
    decreases (MAX_INCLUDE_DEPTH + 1 - depth), 0nat, document(source@),
{
    match find_file(files, path, rel) {
        None => Err(Stop::Missing { from: path.to_owned(), rel: rel.to_owned() }),
        Some(IncludedFile::Unreadable(why)) => {
            let name = to_debug_form(rel);
            let start = join3("cannot include ", name.as_str(), ": ");
            let message = crate::text::join2(start.as_str(), why.as_str());
            Err(Stop::Error(CandyError::Parse(message, None)))
        },
        Some(IncludedFile::Read { path: target, canon, content }) => {
            if is_on_chain(chain, canon.as_str()) {
                return Err(
                    Stop::Error(circular_error(path, source, at, chain, canon.as_str())),
                );
            }
            let from = make_frame(path, source, at);
            let ghost before = seq_view(chain@);
            chain.push(Link { canon: canon.clone(), from: copy_frame(&from) });
            let x = expand_includes(files, target.as_str(), content.as_str(), depth + 1, chain)?;
            proof {
                law_regions_hold_their_text(
                    seq_view(files@),
                    target@,
                    content@,
                    (depth + 1) as nat,
                    seq_view(chain@),
                );
            }
            let ghost longer = chain@;
            let _ = chain.pop();
            proof {
                assert(seq_view(longer) == before.push(LinkView { canon: canon@, from: from@ }));
                assert(longer.len() == seq_view(longer).len());
                assert(chain@ == longer.drop_last());
                assert forall|i: int| 0 <= i < before.len() implies seq_view(chain@)[i]
                    == before[i] by {
                    assert(seq_view(longer)[i] == longer[i]@);
                }
                assert(seq_view(chain@) =~= before);
            }
            pull_in(b, target.as_str(), from, x);
            Ok(())
        },
    }
}

fn build(
    files: &Vec<FileEntry>,
    path: &str,
    source: &str,
    depth: usize,
    chain: &mut Vec<Link>,
    n: &Node,
    b: &mut Builder,
) -> (r: Result<(), Stop>)
    requires
        depth <= MAX_INCLUDE_DEPTH,
    ensures
        match r {
            Ok(_) => built(
                seq_view(files@),
                path@,
                source@,
                depth as nat,
                seq_view(old(chain)@),
                n@,
                old(b)@,
            ) == Ok::<Built, StopView>(final(b)@) && seq_view(final(chain)@) == seq_view(
                old(chain)@,
            ),
            Err(e) => built(
                seq_view(files@),
                path@,
                source@,
                depth as nat,
                seq_view(old(chain)@),
                n@,
                old(b)@,
            ) == Err::<Built, StopView>(e@),
        },
    decreases (MAX_INCLUDE_DEPTH + 1 - depth), 1nat, n@,
{
    if let Some(rel) = module_include_path(n) {
        let at = hashed_span_of(source, n);
        return include_file(files, path, source, depth, chain, at, rel.as_str(), b);
    }
    let mut own = chars_of(n.text.as_str());
    b.tail.append(&mut own);
    let ghost fv = seq_view(files@);
    let ghost cv = seq_view(chain@);
    let ghost start = b@;
    let ghost s = n@.children;
    let mut i: usize = 0;
    assert(start =~= Built { tail: old(b)@.tail + n@.text, ..old(b)@ });
    assert(s.take(0) =~= Seq::<NodeView>::empty());
    while i < n.children.len()
        invariant
            i <= n.children@.len(),
            depth <= MAX_INCLUDE_DEPTH,
            s == n@.children,
            s == nodes_view(n.children@),
            fv == seq_view(files@),
            cv == seq_view(old(chain)@),
            seq_view(chain@) == cv,
            include_path(n@) is None,
            start == (Built { tail: old(b)@.tail + n@.text, ..old(b)@ }),
            built_all(fv, path@, source@, depth as nat, cv, s.take(i as int), start) == Ok::<
                Built,
                StopView,
            >(b@),
        decreases n.children.len() - i,
    {
        proof {
            assert(s[i as int] == node_view(n.children@[i as int]));
            assert(decreases_to!(n@ => n@.children[i as int]));
            assert(s.take(i + 1).drop_last() =~= s.take(i as int));
        }
        match build(files, path, source, depth, chain, &n.children[i], b) {
            Ok(_) => {},
            Err(e) => {
                proof {
                    lemma_built_all_stops(
                        fv,
                        path@,
                        source@,
                        depth as nat,
                        cv,
                        s,
                        i + 1,
                        start,
                    );
                }
                return Err(e);
            },
        }
        i += 1;
    }
    assert(s.take(s.len() as int) =~= s);
    Ok(())
}

proof fn lemma_built_all_stops(
    files: Seq<EntryView>,
    path: Seq<char>,
    source: Seq<char>,
    depth: nat,
    chain: Seq<LinkView>,
    s: Seq<NodeView>,
    k: int,
    b: Built,
)
    requires
        depth <= MAX_INCLUDE_DEPTH,
        0 <= k <= s.len(),
        built_all(files, path, source, depth, chain, s.take(k), b) is Err,
    ensures
        built_all(files, path, source, depth, chain, s, b) == built_all(
            files,
            path,
            source,
            depth,
            chain,
            s.take(k),
            b,
        ),
    decreases s.len(),
{
    if k == s.len() {
        assert(s.take(k) =~= s);
    } else {
        assert(s.drop_last().take(k) =~= s.take(k));
        lemma_built_all_stops(files, path, source, depth, chain, s.drop_last(), k, b);
    }
}

// ---------------------------------------------------------------- finding the way back

/// The innermost region that a byte stands in.
pub open spec fn region_for(s: Seq<RegionView>, at: int) -> Option<RegionView>
    decreases s.len(),
{
    if s.len() == 0 {
        None
    } else if s.last().start <= at < s.last().end {
        Some(s.last())
    } else {
        region_for(s.drop_last(), at)
    }
}

/// The part of a region that a range of the expanded text falls into: at least one byte, and
/// none behind the region.
pub open spec fn within(r: RegionView, at: Span) -> Span {
    let len = encode_utf8(r.text).len();
    let k = at.start - r.start;
    let width = if at.end <= at.start {
        1
    } else {
        at.end - at.start
    };
    Span {
        start: k as usize,
        end: if k + width <= len {
            (k + width) as usize
        } else if k < len {
            len as usize
        } else {
            k as usize
        },
    }
}

/// The place in a file that a range of the expanded document stands for.
pub open spec fn located(path: Seq<char>, x: ExpandedView, at: Span) -> LocView {
    match region_for(x.regions, at.start as int) {
        Some(r) => loc_at(r.path, r.text, within(r, at), r.trace),
        None => loc_at(path, x.text, at, Seq::empty()),
    }
}

/// Finds the place in a file that a range of the expanded document stands for: the innermost file
/// that it came from, with the places where that file was pulled in.
pub fn locate(path: &str, x: &Expanded, at: Span) -> (r: SourceLoc)
    ensures
        r@ == located(path@, x@, at),
{
    let ghost s = seq_view(x.regions@);
    let mut i: usize = x.regions.len();
    assert(s.take(s.len() as int) =~= s);
    while i > 0
        invariant
            i <= x.regions@.len(),
            s == seq_view(x.regions@),
            s == x@.regions,
            region_for(s, at.start as int) == region_for(s.take(i as int), at.start as int),
        decreases i,
    {
        assert(s.take(i as int).drop_last() =~= s.take(i - 1));
        assert(s[i - 1] == x.regions@[i - 1]@);
        let r = &x.regions[i - 1];
        if r.start <= at.start && at.start < r.end {
            let len: usize = r.text.as_str().as_bytes().len();
            let k: usize = at.start - r.start;
            let width: usize = if at.end <= at.start {
                1
            } else {
                at.end - at.start
            };
            let end: usize = if k <= len && width <= len - k {
                k + width
            } else if k < len {
                len
            } else {
                k
            };
            let inner = Span { start: k, end };
            assert(inner == within(r@, at));
            let f = make_frame(r.path.as_str(), r.text.as_str(), inner);
            let include_trace = copy_frames(&r.trace);
            return SourceLoc {
                path: f.path,
                span: f.span,
                line: f.line,
                line_text: f.line_text,
                include_trace,
            };
        }
        i -= 1;
    }
    let f = make_frame(path, x.text.as_str(), at);
    let include_trace: Vec<TraceFrame> = Vec::new();
    assert(seq_view(include_trace@) =~= Seq::<FrameView>::empty());
    SourceLoc { path: f.path, span: f.span, line: f.line, line_text: f.line_text, include_trace }
}

} // verus!
