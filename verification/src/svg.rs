//! SVG documents: the scene that one holds, its viewport, and its pixels.

use vstd::prelude::*;
use vstd::string::*;
use crate::bytes::push_all;
use crate::diag::{CandyError, ErrorView};
use crate::text::{chars_of, decimal, digit, find_from, found_at, join2, stands_at, string_of, to_decimal};
use crate::video::{FrameView, RenderedFrame};

verus! {

// ---------------------------------------------------------------- searching

/// The first place from `from` on where `part` stands in `s`.
pub open spec fn first_place(s: Seq<char>, part: Seq<char>, from: int) -> Option<int>
    decreases s.len() + 1 - from,
{
    if from < 0 || from > s.len() {
        None
    } else if stands_at(s, part, from) {
        Some(from)
    } else {
        first_place(s, part, from + 1)
    }
}

/// The last place before which `part` stands in the first `end` characters of `s`.
pub open spec fn last_place(s: Seq<char>, part: Seq<char>, end: int) -> Option<int>
    decreases end,
{
    if end <= 0 {
        if end == 0 && part.len() == 0 {
            Some(0)
        } else {
            None
        }
    } else if stands_at(s, part, end - part.len()) {
        Some(end - part.len())
    } else {
        last_place(s, part, end - 1)
    }
}

/// What is known of the first place.
pub proof fn lemma_first_place(s: Seq<char>, part: Seq<char>, from: int)
    requires
        0 <= from,
    ensures
        match first_place(s, part, from) {
            Some(k) => from <= k <= s.len() && stands_at(s, part, k) && forall|j: int|
                from <= j < k ==> !#[trigger] stands_at(s, part, j),
            None => forall|j: int| from <= j ==> !#[trigger] stands_at(s, part, j),
        },
    decreases s.len() + 1 - from,
{
    if from <= s.len() && !stands_at(s, part, from) {
        lemma_first_place(s, part, from + 1);
        assert forall|j: int| from <= j && first_place(s, part, from) is None implies !(
        #[trigger] stands_at(s, part, j)) by {
            if j > from {
                assert(from + 1 <= j);
            }
        }
    }
}

/// A place that is the first one is the one that is found.
pub proof fn lemma_is_first_place(s: Seq<char>, part: Seq<char>, from: int, k: int)
    requires
        0 <= from <= k,
        stands_at(s, part, k),
        forall|j: int| from <= j < k ==> !#[trigger] stands_at(s, part, j),
    ensures
        first_place(s, part, from) == Some(k),
    decreases k - from,
{
    if from < k {
        lemma_is_first_place(s, part, from + 1, k);
    }
}

fn find_place(s: &Vec<char>, part: &str, from: usize) -> (r: Option<usize>)
    requires
        from <= s@.len(),
    ensures
        match r {
            Some(k) => first_place(s@, part@, from as int) == Some(k as int) && from <= k && k
                + part@.len() <= s@.len(),
            None => first_place(s@, part@, from as int) is None,
        },
{
    let p = chars_of(part);
    proof {
        lemma_first_place(s@, part@, from as int);
    }
    match find_from(s, &p, from) {
        Some(k) => {
            proof {
                lemma_is_first_place(s@, part@, from as int, k as int);
            }
            Some(k)
        },
        None => None,
    }
}

fn find_last_place(s: &Vec<char>, part: &str, end: usize) -> (r: Option<usize>)
    requires
        end <= s@.len(),
        part@.len() > 0,
    ensures
        match r {
            Some(k) => last_place(s@, part@, end as int) == Some(k as int) && k <= end,
            None => last_place(s@, part@, end as int) is None,
        },
{
    let p = chars_of(part);
    let mut e: usize = end;
    while e > 0
        invariant
            e <= end <= s@.len(),
            p@ == part@,
            part@.len() > 0,
            last_place(s@, part@, end as int) == last_place(s@, part@, e as int),
        decreases e,
    {
        if p.len() <= e && found_at(s, &p, e - p.len()) {
            return Some(e - p.len());
        }
        e -= 1;
    }
    None
}

// ---------------------------------------------------------------- the viewport

/// What an attribute starts with.
pub open spec fn attr_start(name: Seq<char>) -> Seq<char> {
    name + "=\""@
}

/// A text with the value of the first attribute of the given name replaced by a number.
pub open spec fn with_attr(s: Seq<char>, name: Seq<char>, value: u32) -> Seq<char> {
    match first_place(s, attr_start(name), 0) {
        None => s,
        Some(start) => {
            let at = start + attr_start(name).len();
            match first_place(s, "\""@, at) {
                None => s,
                Some(end) => s.take(at) + decimal(value as nat) + s.skip(end),
            }
        },
    }
}

/// A document with the width and the height of its root set; the rest stays as it is.
pub open spec fn with_viewport(svg: Seq<char>, w: u32, h: u32) -> Seq<char> {
    match first_place(svg, "<svg"@, 0) {
        None => svg,
        Some(open) => match first_place(svg, ">"@, open) {
            None => svg,
            Some(close) => svg.take(open) + with_attr(
                with_attr(svg.subrange(open, close + 1), "width"@, w),
                "height"@,
                h,
            ) + svg.skip(close + 1),
        },
    }
}

fn part_of(s: &Vec<char>, at: usize, end: usize) -> (r: Vec<char>)
    requires
        at <= end <= s@.len(),
    ensures
        r@ == s@.subrange(at as int, end as int),
{
    crate::text::sub_chars(s, at, end)
}

/// Replaces the value of the first attribute of the given name.
pub fn replace_attr(s: &str, name: &str, value: u32) -> (r: String)
    ensures
        r@ == with_attr(s@, name@, value),
{
    let chars = chars_of(s);
    let total: usize = chars.len();
    let needle = join2(name, "=\"");
    let start: usize = match find_place(&chars, needle.as_str(), 0) {
        Some(k) => k,
        None => {
            return s.to_owned();
        },
    };
    let at: usize = start + chars_of(needle.as_str()).len();
    let end: usize = match find_place(&chars, "\"", at) {
        Some(k) => k,
        None => {
            return s.to_owned();
        },
    };
    let mut out = string_of(part_of(&chars, 0, at).as_slice());
    out.append(to_decimal(value as u64).as_str());
    out.append(string_of(part_of(&chars, end, total).as_slice()).as_str());
    proof {
        assert(s@.subrange(0, at as int) =~= s@.take(at as int));
        assert(s@.subrange(end as int, s@.len() as int) =~= s@.skip(end as int));
    }
    out
}

/// Sets the width and the height of the root of a document, in pixels. The `viewBox` stays as it
/// is, so that the drawing is scaled to the new size.
pub fn set_svg_viewport_px(svg: &str, w: u32, h: u32) -> (r: String)
    ensures
        r@ == with_viewport(svg@, w, h),
{
    let chars = chars_of(svg);
    let total: usize = chars.len();
    let open: usize = match find_place(&chars, "<svg", 0) {
        Some(k) => k,
        None => {
            return svg.to_owned();
        },
    };
    let close: usize = match find_place(&chars, ">", open) {
        Some(k) => k,
        None => {
            return svg.to_owned();
        },
    };
    proof {
        reveal_strlit(">");
        assert(close + 1 <= total);
    }
    let tag = string_of(part_of(&chars, open, close + 1).as_slice());
    let tag = replace_attr(tag.as_str(), "width", w);
    let tag = replace_attr(tag.as_str(), "height", h);
    let mut out = string_of(part_of(&chars, 0, open).as_slice());
    out.append(tag.as_str());
    out.append(string_of(part_of(&chars, close + 1, total).as_slice()).as_str());
    proof {
        assert(svg@.subrange(0, open as int) =~= svg@.take(open as int));
        assert(svg@.subrange(close + 1, svg@.len() as int) =~= svg@.skip(close + 1));
    }
    out
}

// ---------------------------------------------------------------- the scene in a document

/// Why a document holds no scene.
#[derive(Debug, Clone, Copy, PartialEq, Eq, Structural)]
pub enum SvgFault {
    NoBlock,
    NotInText,
    MalformedText,
    UnterminatedText,
}

/// What the candy block of a document holds.
pub open spec fn candy_block(svg: Seq<char>) -> Result<Seq<char>, SvgFault> {
    match first_place(svg, "lang=\"candy-json\""@, 0) {
        None => Err(SvgFault::NoBlock),
        Some(marker) => match last_place(svg, "<text"@, marker) {
            None => Err(SvgFault::NotInText),
            Some(start) => match first_place(svg, ">"@, start) {
                None => Err(SvgFault::MalformedText),
                Some(end) => match first_place(svg, "</text>"@, end) {
                    None => Err(SvgFault::UnterminatedText),
                    Some(close) => Ok(svg.subrange(end + 1, close)),
                },
            },
        },
    }
}

/// The error that a fault stands for.
pub open spec fn svg_error(f: SvgFault) -> ErrorView {
    ErrorView::Svg(
        match f {
            SvgFault::NoBlock => "no candy-json block found"@,
            SvgFault::NotInText => "candy-json not inside a <text>"@,
            SvgFault::MalformedText => "malformed <text>"@,
            SvgFault::UnterminatedText => "unterminated <text>"@,
        },
    )
}

/// Finds what the candy block of a document holds.
pub fn extract_scene_from_svg(svg: &str) -> (r: Result<String, CandyError>)
    ensures
        match r {
            Ok(s) => candy_block(svg@) == Ok::<Seq<char>, SvgFault>(s@),
            Err(e) => candy_block(svg@) matches Err(f) && e@ == svg_error(f),
        },
{
    let chars = chars_of(svg);
    proof {
        reveal_strlit("<text");
        reveal_strlit(">");
        reveal_strlit("</text>");
    }
    let marker: usize = match find_place(&chars, "lang=\"candy-json\"", 0) {
        Some(k) => k,
        None => {
            return Err(CandyError::Svg("no candy-json block found".to_owned()));
        },
    };
    let start: usize = match find_last_place(&chars, "<text", marker) {
        Some(k) => k,
        None => {
            return Err(CandyError::Svg("candy-json not inside a <text>".to_owned()));
        },
    };
    let end: usize = match find_place(&chars, ">", start) {
        Some(k) => k,
        None => {
            return Err(CandyError::Svg("malformed <text>".to_owned()));
        },
    };
    let close: usize = match find_place(&chars, "</text>", end) {
        Some(k) => k,
        None => {
            return Err(CandyError::Svg("unterminated <text>".to_owned()));
        },
    };
    proof {
        lemma_first_place(svg@, "</text>"@, end as int);
        lemma_first_place(svg@, ">"@, start as int);
        assert(svg@.subrange(end as int, end + 1)[0] == ">"@[0]);
        if close == end {
            assert(svg@.subrange(close as int, close + 7)[0] == "</text>"@[0]);
        }
    }
    Ok(string_of(part_of(&chars, end + 1, close).as_slice()))
}

// ---------------------------------------------------------------- laws

/// Setting the viewport changes nothing in front of the opening tag of the root and nothing
/// behind it: what the root holds stays as it is.
pub proof fn law_viewport_changes_root_only(svg: Seq<char>, w: u32, h: u32, open: int, close: int)
    requires
        first_place(svg, "<svg"@, 0) == Some(open),
        first_place(svg, ">"@, open) == Some(close),
    ensures
        ({
            let out = with_viewport(svg, w, h);
            let behind = svg.skip(close + 1);
            &&& out.len() >= open + behind.len()
            &&& out.take(open) == svg.take(open)
            &&& out.skip(out.len() - behind.len()) == behind
        }),
{
    lemma_first_place(svg, "<svg"@, 0);
    lemma_first_place(svg, ">"@, open);
    reveal_strlit(">");
    let tag = with_attr(
        with_attr(svg.subrange(open, close + 1), "width"@, w),
        "height"@,
        h,
    );
    let out = with_viewport(svg, w, h);
    let behind = svg.skip(close + 1);
    assert(out == svg.take(open) + tag + behind);
    assert(out.take(open) =~= svg.take(open));
    assert(out.skip(out.len() - behind.len()) =~= behind);
}

/// The value of the first attribute of the given name.
pub open spec fn attr_value(s: Seq<char>, name: Seq<char>) -> Option<Seq<char>> {
    match first_place(s, attr_start(name), 0) {
        None => None,
        Some(start) => {
            let at = start + attr_start(name).len();
            match first_place(s, "\""@, at) {
                None => None,
                Some(end) => Some(s.subrange(at, end)),
            }
        },
    }
}

proof fn lemma_decimal_no_quote(n: nat)
    ensures
        forall|i: int| 0 <= i < decimal(n).len() ==> #[trigger] decimal(n)[i] != '"',
    decreases n,
{
    if n >= 10 {
        lemma_decimal_no_quote(n / 10);
        assert(digit(n % 10) as u32 == 0x30 + n % 10);
        assert(decimal(n) == decimal(n / 10).push(digit(n % 10)));
    } else {
        assert(digit(n) as u32 == 0x30 + n);
    }
}

/// An attribute that was set lies where it did, up to the end of its new value.
proof fn lemma_attr_places(s: Seq<char>, name: Seq<char>, value: u32)
    requires
        attr_value(s, name) is Some,
    ensures
        ({
            let start = first_place(s, attr_start(name), 0)->0;
            let at = start + attr_start(name).len();
            let t = with_attr(s, name, value);
            &&& first_place(t, attr_start(name), 0) == Some(start)
            &&& first_place(t, "\""@, at as int) == Some(at + decimal(value as nat).len())
        }),
{
    let needle = attr_start(name);
    lemma_first_place(s, needle, 0);
    let start = first_place(s, needle, 0)->0;
    let at = start + needle.len();
    lemma_first_place(s, "\""@, at);
    let end = first_place(s, "\""@, at)->0;
    reveal_strlit("\"");
    reveal_strlit("=\"");
    let d = decimal(value as nat);
    let t = with_attr(s, name, value);
    assert(t == s.take(at) + d + s.skip(end));
    assert(s.subrange(start, at) == needle);
    assert(s.subrange(end, end + 1)[0] == '"');
    assert(t.subrange(start, at) =~= needle);
    assert forall|j: int| 0 <= j < start implies !(#[trigger] stands_at(t, needle, j)) by {
        if stands_at(t, needle, j) {
            assert(s.subrange(j, j + needle.len()) =~= t.subrange(j, j + needle.len()));
            assert(stands_at(s, needle, j));
        }
    }
    lemma_is_first_place(t, needle, 0, start);
    let stop = at + d.len();
    lemma_decimal_no_quote(value as nat);
    assert(t[stop] == s[end]);
    assert(t.subrange(stop, stop + 1) =~= "\""@);
    assert forall|j: int| at <= j < stop implies !(#[trigger] stands_at(t, "\""@, j)) by {
        if stands_at(t, "\""@, j) {
            assert(t.subrange(j, j + 1)[0] == '"');
            assert(t[j] == d[j - at]);
        }
    }
    lemma_is_first_place(t, "\""@, at, stop);
}

/// An attribute that is there has the value that it was set to.
pub proof fn law_attr_reads_back(s: Seq<char>, name: Seq<char>, value: u32)
    requires
        attr_value(s, name) is Some,
    ensures
        attr_value(with_attr(s, name, value), name) == Some(decimal(value as nat)),
{
    lemma_attr_places(s, name, value);
    let at = first_place(s, attr_start(name), 0)->0 + attr_start(name).len();
    lemma_first_place(s, attr_start(name), 0);
    lemma_first_place(s, "\""@, at);
    let t = with_attr(s, name, value);
    let d = decimal(value as nat);
    assert(t.subrange(at, at + d.len()) =~= d);
}

/// The opening tag of the root of a document.
pub open spec fn root_tag(svg: Seq<char>) -> Option<Seq<char>> {
    match first_place(svg, "<svg"@, 0) {
        None => None,
        Some(open) => match first_place(svg, ">"@, open) {
            None => None,
            Some(close) => Some(svg.subrange(open, close + 1)),
        },
    }
}

/// Whether the first width of a tag starts inside the value of its first height, as in
/// `height="width="1"`: setting the height then removes the width that was set before.
pub open spec fn entangled(tag: Seq<char>) -> bool {
    match (first_place(tag, attr_start("height"@), 0), first_place(tag, attr_start("width"@), 0)) {
        (Some(h), Some(w)) => attr_value(tag, "width"@) is Some && first_place(tag, "\""@, h + 8)
            == Some(w + 6),
        _ => false,
    }
}

/// Whether a text is what an attribute starts with: it ends in its only quote and holds no digit.
spec fn is_needle(m: Seq<char>) -> bool {
    &&& m.len() > 0
    &&& m.last() == '"'
    &&& forall|i: int| 0 <= i < m.len() - 1 ==> #[trigger] m[i] != '"'
    &&& forall|i: int| 0 <= i < m.len() ==> !('0' <= #[trigger] m[i] <= '9')
}

/// Whether the quotes at `at - 1` and `end` enclose a value, and `d` consists of digits.
spec fn is_value(t: Seq<char>, at: int, end: int, d: Seq<char>) -> bool {
    &&& 0 < at <= end < t.len()
    &&& t[at - 1] == '"' && t[end] == '"'
    &&& forall|i: int| at <= i < end ==> #[trigger] t[i] != '"'
    &&& d.len() > 0
    &&& forall|i: int| 0 <= i < d.len() ==> '0' <= #[trigger] d[i] <= '9'
}

/// A text with a value replaced.
spec fn revalued(t: Seq<char>, at: int, end: int, d: Seq<char>) -> Seq<char> {
    t.take(at) + d + t.skip(end)
}

/// Where a place outside of a value is after the value was replaced.
spec fn moved(x: int, at: int, end: int, d: Seq<char>) -> int {
    if x < at {
        x
    } else {
        x - end + at + d.len()
    }
}

proof fn lemma_stands(t: Seq<char>, m: Seq<char>, j: int)
    ensures
        stands_at(t, m, j) <==> (0 <= j && j + m.len() <= t.len() && forall|i: int|
            0 <= i < m.len() ==> t[j + i] == #[trigger] m[i]),
{
    if 0 <= j && j + m.len() <= t.len() {
        if stands_at(t, m, j) {
            assert forall|i: int| 0 <= i < m.len() implies t[j + i] == #[trigger] m[i] by {
                assert(t.subrange(j, j + m.len())[i] == m[i]);
            }
        }
        if forall|i: int| 0 <= i < m.len() ==> t[j + i] == #[trigger] m[i] {
            assert(t.subrange(j, j + m.len()) =~= m);
        }
    }
}

proof fn lemma_place_before(t: Seq<char>, at: int, end: int, d: Seq<char>, m: Seq<char>, j: int)
    requires
        is_value(t, at, end, d),
        is_needle(m),
        stands_at(revalued(t, at, end, d), m, j),
    ensures
        ({
            ||| j + m.len() <= at && stands_at(t, m, j)
            ||| j >= at + d.len() && stands_at(t, m, j - at - d.len() + end)
        }),
{
    let u = revalued(t, at, end, d);
    lemma_stands(u, m, j);
    lemma_stands(t, m, j);
    lemma_stands(t, m, j - at - d.len() + end);
    if j + m.len() > at && j < at + d.len() {
        let x = if j >= at {
            j
        } else {
            at
        };
        assert(u[j + (x - j)] == m[x - j]);
        assert(u[x] == d[x - at]);
    }
}

proof fn lemma_place_after(t: Seq<char>, at: int, end: int, d: Seq<char>, m: Seq<char>, j: int)
    requires
        is_value(t, at, end, d),
        is_needle(m),
        stands_at(t, m, j),
    ensures
        j + m.len() <= at || j >= at,
        at <= j < end ==> j + m.len() == end + 1,
        j + m.len() <= at || j >= end ==> stands_at(
            revalued(t, at, end, d),
            m,
            moved(j, at, end, d),
        ),
{
    let u = revalued(t, at, end, d);
    lemma_stands(t, m, j);
    lemma_stands(u, m, moved(j, at, end, d));
    if j < at < j + m.len() {
        assert(t[j + (at - 1 - j)] == m[at - 1 - j]);
    }
    let q = j + m.len() - 1;
    assert(t[j + (m.len() - 1)] == m[m.len() - 1]);
    if at <= j < end {
        if q > end {
            assert(t[j + (end - j)] == m[end - j]);
        }
    }
}

proof fn lemma_quote_needle()
    ensures
        is_needle("\""@),
        "\""@.len() == 1,
{
    reveal_strlit("\"");
}

/// Replacing a value moves the other attributes and changes nothing else about them.
proof fn lemma_other_attr(t: Seq<char>, at: int, end: int, d: Seq<char>, m: Seq<char>, p: int)
    requires
        is_value(t, at, end, d),
        is_needle(m),
        first_place(t, m, 0) == Some(p),
        p + m.len() != at,
        p < at || p >= end,
    ensures
        ({
            let u = revalued(t, at, end, d);
            let q = moved(p, at, end, d);
            &&& first_place(u, m, 0) == Some(q)
            &&& match first_place(t, "\""@, (p + m.len()) as int) {
                None => first_place(u, "\""@, (q + m.len()) as int) is None,
                Some(e) => (e < at || e >= end) && first_place(u, "\""@, (q + m.len()) as int)
                    == Some(moved(e, at, end, d)),
            }
        }),
{
    let u = revalued(t, at, end, d);
    let q = moved(p, at, end, d);
    let quote = "\""@;
    lemma_quote_needle();
    lemma_first_place(t, m, 0);
    lemma_place_after(t, at, end, d, m, p);
    assert forall|j: int| 0 <= j < q implies !(#[trigger] stands_at(u, m, j)) by {
        if stands_at(u, m, j) {
            lemma_place_before(t, at, end, d, m, j);
        }
    }
    lemma_is_first_place(u, m, 0, q);
    let from = p + m.len();
    let to = q + m.len();
    lemma_first_place(t, quote, from as int);
    lemma_first_place(u, quote, to as int);
    match first_place(t, quote, from as int) {
        None => {
            if let Some(x) = first_place(u, quote, to as int) {
                lemma_place_before(t, at, end, d, quote, x);
            }
        },
        Some(e) => {
            if p < at {
                lemma_stands(t, quote, at - 1);
                assert(stands_at(t, quote, at - 1));
                assert(e < at);
            }
            lemma_place_after(t, at, end, d, quote, e);
            let y = moved(e, at, end, d);
            assert forall|j: int| to <= j < y implies !(#[trigger] stands_at(u, quote, j)) by {
                if stands_at(u, quote, j) {
                    lemma_place_before(t, at, end, d, quote, j);
                }
            }
            lemma_is_first_place(u, quote, to as int, y);
        },
    }
}

proof fn lemma_decimal_digits(n: nat)
    ensures
        decimal(n).len() > 0,
        forall|i: int| 0 <= i < decimal(n).len() ==> '0' <= #[trigger] decimal(n)[i] <= '9',
    decreases n,
{
    if n >= 10 {
        lemma_decimal_digits(n / 10);
        assert(digit(n % 10) as u32 == 0x30 + n % 10);
        assert(decimal(n) == decimal(n / 10).push(digit(n % 10)));
    } else {
        assert(digit(n) as u32 == 0x30 + n);
    }
}

/// Where the value of an attribute lies, if it is there.
spec fn value_range(s: Seq<char>, name: Seq<char>) -> (int, int) {
    let at = first_place(s, attr_start(name), 0)->0 + attr_start(name).len();
    (at, first_place(s, "\""@, at)->0)
}

proof fn lemma_value_range(s: Seq<char>, name: Seq<char>, v: u32)
    requires
        is_needle(attr_start(name)),
        attr_value(s, name) is Some,
    ensures
        ({
            let (at, end) = value_range(s, name);
            &&& is_value(s, at, end, decimal(v as nat))
            &&& with_attr(s, name, v) == revalued(s, at, end, decimal(v as nat))
            &&& attr_start(name).len() <= at
            &&& stands_at(s, attr_start(name), at - attr_start(name).len())
        }),
{
    let m = attr_start(name);
    let (at, end) = value_range(s, name);
    lemma_decimal_digits(v as nat);
    lemma_quote_needle();
    lemma_first_place(s, m, 0);
    lemma_first_place(s, "\""@, at);
    lemma_stands(s, m, at - m.len());
    assert(s[(at - m.len()) + (m.len() - 1)] == m[m.len() - 1]);
    lemma_stands(s, "\""@, end);
    reveal_strlit("\"");
    assert(s[end + 0] == "\""@[0]);
    assert forall|i: int| at <= i < end implies #[trigger] s[i] != '"' by {
        if s[i] == '"' {
            lemma_stands(s, "\""@, i);
            assert(stands_at(s, "\""@, i));
        }
    }
}

/// The last value that an attribute is set to counts.
pub proof fn law_attr_set_again(s: Seq<char>, name: Seq<char>, a: u32, c: u32)
    ensures
        with_attr(with_attr(s, name, a), name, c) == with_attr(s, name, c),
{
    if attr_value(s, name) is Some {
        lemma_attr_places(s, name, a);
        let at = first_place(s, attr_start(name), 0)->0 + attr_start(name).len();
        let end = first_place(s, "\""@, at)->0;
        lemma_first_place(s, attr_start(name), 0);
        lemma_first_place(s, "\""@, at);
        let t = with_attr(s, name, a);
        let stop = at + decimal(a as nat).len();
        assert(t.take(at) =~= s.take(at));
        assert(t.skip(stop) =~= s.skip(end));
    }
}

proof fn lemma_needles()
    ensures
        is_needle(attr_start("width"@)),
        is_needle(attr_start("height"@)),
        attr_start("width"@) == seq!['w', 'i', 'd', 't', 'h', '=', '"'],
        attr_start("height"@) == seq!['h', 'e', 'i', 'g', 'h', 't', '=', '"'],
{
    reveal_strlit("width");
    reveal_strlit("height");
    reveal_strlit("=\"");
    assert(attr_start("width"@) =~= seq!['w', 'i', 'd', 't', 'h', '=', '"']);
    assert(attr_start("height"@) =~= seq!['h', 'e', 'i', 'g', 'h', 't', '=', '"']);
}

/// An attribute that is not there is not there after another one was set.
proof fn lemma_stays_absent(t: Seq<char>, at: int, end: int, d: Seq<char>, name: Seq<char>)
    requires
        is_value(t, at, end, d),
        is_needle(attr_start(name)),
        attr_value(t, name) is None,
    ensures
        attr_value(revalued(t, at, end, d), name) is None,
{
    let u = revalued(t, at, end, d);
    let m = attr_start(name);
    let quote = "\""@;
    lemma_quote_needle();
    lemma_first_place(t, m, 0);
    lemma_first_place(u, m, 0);
    if let Some(j) = first_place(u, m, 0) {
        lemma_place_before(t, at, end, d, m, j);
        let from = (j + m.len()) as int;
        lemma_first_place(u, quote, from);
        let i = if j + m.len() <= at && stands_at(t, m, j) {
            j
        } else {
            j - at - d.len() + end
        };
        let p = first_place(t, m, 0)->0;
        assert(p <= i);
        lemma_first_place(t, quote, (p + m.len()) as int);
        if p < i {
            lemma_stands(t, m, i);
            assert(t[i + (m.len() - 1)] == m[m.len() - 1]);
            reveal_strlit("\"");
            lemma_stands(t, quote, i + m.len() - 1);
            assert(stands_at(t, quote, i + m.len() - 1));
        }
        if let Some(x) = first_place(u, quote, from) {
            lemma_place_before(t, at, end, d, quote, x);
        }
    }
}

/// Two values, one behind the other, can be replaced in any order.
proof fn lemma_swap(
    t: Seq<char>,
    a1: int,
    e1: int,
    d1: Seq<char>,
    a2: int,
    e2: int,
    d2: Seq<char>,
)
    requires
        0 <= a1 <= e1 < a2 <= e2 < t.len(),
    ensures
        revalued(revalued(t, a2, e2, d2), a1, e1, d1) == revalued(
            revalued(t, a1, e1, d1),
            a2 - e1 + a1 + d1.len(),
            e2 - e1 + a1 + d1.len(),
            d2,
        ),
{
    let all = t.take(a1) + d1 + t.subrange(e1, a2) + d2 + t.skip(e2);
    assert(revalued(revalued(t, a2, e2, d2), a1, e1, d1) =~= all);
    assert(revalued(
        revalued(t, a1, e1, d1),
        a2 - e1 + a1 + d1.len(),
        e2 - e1 + a1 + d1.len(),
        d2,
    ) =~= all);
}

/// The width and the height of a tag, where neither reaches into the other: how they lie.
proof fn lemma_apart(t: Seq<char>)
    requires
        attr_value(t, "width"@) is Some,
        attr_value(t, "height"@) is Some,
        !entangled(t),
        ({
            let (aw, ew) = value_range(t, "width"@);
            !(aw <= value_range(t, "height"@).0 - 8 < ew)
        }),
    ensures
        ({
            let (aw, ew) = value_range(t, "width"@);
            let (ah, eh) = value_range(t, "height"@);
            (aw <= ew < ah - 8 && ah <= eh) || (ah <= eh < aw - 7 && aw <= ew)
        }),
{
    let (wn, hn) = ("width"@, "height"@);
    let (wm, hm) = (attr_start(wn), attr_start(hn));
    lemma_needles();
    let (aw, ew) = value_range(t, wn);
    let (ah, eh) = value_range(t, hn);
    lemma_value_range(t, wn, 0);
    lemma_value_range(t, hn, 0);
    let d = decimal(0);
    let (pw, ph) = (aw - 7, ah - 8);
    lemma_place_after(t, aw, ew, d, hm, ph);
    lemma_place_after(t, ah, eh, d, wm, pw);
    lemma_stands(t, wm, pw);
    lemma_stands(t, hm, ph);
    assert(t[pw + 4] == wm[4] && t[pw + 0] == wm[0]);
    assert(t[ph + 5] == hm[5] && t[ph + 0] == hm[0]);
    assert(aw != ah);
    assert(!(ah <= pw < eh));
    assert(t[ew] == '"' && t[eh] == '"');
}

/// Two attributes that do not reach into each other can be set in any order.
proof fn lemma_set_in_any_order(t: Seq<char>, c: u32, b: u32)
    requires
        !entangled(t),
        match (first_place(t, attr_start("height"@), 0), attr_value(t, "width"@)) {
            (Some(h), Some(_)) => !(value_range(t, "width"@).0 <= h < value_range(t, "width"@).1),
            _ => true,
        },
    ensures
        with_attr(with_attr(t, "height"@, b), "width"@, c) == with_attr(
            with_attr(t, "width"@, c),
            "height"@,
            b,
        ),
{
    let (wn, hn) = ("width"@, "height"@);
    let (wm, hm) = (attr_start(wn), attr_start(hn));
    let (dc, db) = (decimal(c as nat), decimal(b as nat));
    lemma_needles();
    if attr_value(t, wn) is None {
        if attr_value(t, hn) is Some {
            let (at, end) = value_range(t, hn);
            lemma_value_range(t, hn, b);
            lemma_stays_absent(t, at, end, db, wn);
        }
    } else if attr_value(t, hn) is None {
        let (at, end) = value_range(t, wn);
        lemma_value_range(t, wn, c);
        lemma_stays_absent(t, at, end, dc, hn);
    } else {
        let (aw, ew) = value_range(t, wn);
        let (ah, eh) = value_range(t, hn);
        lemma_value_range(t, wn, c);
        lemma_value_range(t, hn, b);
        lemma_apart(t);
        lemma_other_attr(t, ah, eh, db, wm, aw - 7);
        lemma_other_attr(t, aw, ew, dc, hm, ah - 8);
        if ew < ah {
            lemma_swap(t, aw, ew, dc, ah, eh, db);
        } else {
            lemma_swap(t, ah, eh, db, aw, ew, dc);
        }
    }
}

/// What an opening tag of a root keeps: it starts as it did and ends where it is closed.
spec fn is_tag(t: Seq<char>) -> bool {
    &&& t.len() > 4
    &&& t.take(4) == "<svg"@
    &&& t.last() == '>'
    &&& forall|i: int| 0 <= i < t.len() - 1 ==> #[trigger] t[i] != '>'
}

proof fn lemma_tag_kept(t: Seq<char>, name: Seq<char>, v: u32)
    requires
        is_tag(t),
        is_needle(attr_start(name)),
        attr_start(name).len() > 4,
    ensures
        is_tag(with_attr(t, name, v)),
{
    if attr_value(t, name) is Some {
        let (at, end) = value_range(t, name);
        lemma_value_range(t, name, v);
        let u = with_attr(t, name, v);
        let d = decimal(v as nat);
        assert(u.take(4) =~= t.take(4));
        assert(u.last() == t.last());
        assert forall|i: int| 0 <= i < u.len() - 1 implies #[trigger] u[i] != '>' by {
            if i >= at && i < at + d.len() {
                assert(u[i] == d[i - at]);
            } else if i >= at {
                assert(u[i] == t[i - at - d.len() + end]);
            }
        }
    }
}

/// Setting the viewport of a document once more has the effect of setting it to the last size
/// only, unless the width of the root stands inside its height. A document without a root stays
/// as it is.
pub proof fn law_viewport_set_again(svg: Seq<char>, a: u32, b: u32, c: u32, d: u32)
    requires
        root_tag(svg) matches Some(tag) ==> !entangled(tag),
    ensures
        with_viewport(with_viewport(svg, a, b), c, d) == with_viewport(svg, c, d),
        root_tag(svg) is None ==> with_viewport(svg, a, b) == svg,
{
    if let Some(tag) = root_tag(svg) {
        let open = first_place(svg, "<svg"@, 0)->0;
        let close = first_place(svg, ">"@, open)->0;
        let (wn, hn) = ("width"@, "height"@);
        lemma_first_place(svg, "<svg"@, 0);
        lemma_first_place(svg, ">"@, open);
        reveal_strlit(">");
        reveal_strlit("<svg");
        lemma_needles();
        lemma_stands(svg, "<svg"@, open);
        lemma_stands(svg, ">"@, close);
        assert(svg[open + 0] == "<svg"@[0]);
        assert(svg[open + 1] == "<svg"@[1] && svg[open + 2] == "<svg"@[2] && svg[open + 3]
            == "<svg"@[3]);
        assert(svg[close + 0] == ">"@[0]);
        assert(close >= open + 4);
        assert(tag.take(4) =~= "<svg"@);
        assert forall|i: int| 0 <= i < tag.len() - 1 implies #[trigger] tag[i] != '>' by {
            if tag[i] == '>' {
                lemma_stands(svg, ">"@, open + i);
                assert(stands_at(svg, ">"@, open + i));
            }
        }
        let t = with_attr(tag, wn, a);
        let u = with_attr(t, hn, b);
        lemma_tag_kept(tag, wn, a);
        lemma_tag_kept(t, hn, b);
        let out = with_viewport(svg, a, b);
        let behind = svg.skip(close + 1);
        assert(out == svg.take(open) + u + behind);
        assert(u.take(4) == "<svg"@);
        assert forall|i: int| 0 <= i < 4 implies u[i] == #[trigger] "<svg"@[i] by {
            assert(u.take(4)[i] == u[i]);
        }
        lemma_stands(out, "<svg"@, open);
        assert(stands_at(out, "<svg"@, open));
        assert forall|j: int| 0 <= j < open implies !(#[trigger] stands_at(out, "<svg"@, j)) by {
            if stands_at(out, "<svg"@, j) {
                lemma_stands(out, "<svg"@, j);
                lemma_stands(svg, "<svg"@, j);
                assert forall|i: int| 0 <= i < 4 implies svg[j + i] == #[trigger] "<svg"@[i] by {
                    assert(out[j + i] == "<svg"@[i]);
                    if j + i >= open {
                        assert(out[j + i] == u[j + i - open]);
                        assert(u[j + i - open] == "<svg"@[j + i - open]);
                        assert(svg[j + i] == tag[j + i - open]);
                        assert(tag.take(4)[j + i - open] == "<svg"@[j + i - open]);
                    }
                }
                assert(stands_at(svg, "<svg"@, j));
            }
        }
        lemma_is_first_place(out, "<svg"@, 0, open);
        let shut = open + u.len() - 1;
        lemma_stands(out, ">"@, shut);
        assert(out[shut] == u.last());
        assert(stands_at(out, ">"@, shut));
        assert forall|j: int| open <= j < shut implies !(#[trigger] stands_at(out, ">"@, j)) by {
            if stands_at(out, ">"@, j) {
                lemma_stands(out, ">"@, j);
                assert(out[j + 0] == ">"@[0]);
                assert(out[j] == u[j - open]);
            }
        }
        lemma_is_first_place(out, ">"@, open, shut);
        assert(out.subrange(open, shut + 1) =~= u);
        assert(out.take(open) =~= svg.take(open));
        assert(out.skip(shut + 1) =~= behind);
        lemma_attrs_set_again(tag, a, b, c, d);
    }
}

proof fn lemma_attrs_set_again(tag: Seq<char>, a: u32, b: u32, c: u32, d: u32)
    requires
        !entangled(tag),
    ensures
        ({
            let u = with_attr(with_attr(tag, "width"@, a), "height"@, b);
            with_attr(with_attr(u, "width"@, c), "height"@, d) == with_attr(
                with_attr(tag, "width"@, c),
                "height"@,
                d,
            )
        }),
{
    let (wn, hn) = ("width"@, "height"@);
    let t = with_attr(tag, wn, a);
    lemma_width_untangled(tag, a);
    lemma_set_in_any_order(t, c, b);
    law_attr_set_again(tag, wn, a, c);
    law_attr_set_again(with_attr(tag, wn, c), hn, b, d);
}

/// Setting the width leaves no height inside it, and does not move it into one.
proof fn lemma_width_untangled(tag: Seq<char>, a: u32)
    requires
        !entangled(tag),
    ensures
        ({
            let t = with_attr(tag, "width"@, a);
            &&& !entangled(t)
            &&& match (first_place(t, attr_start("height"@), 0), attr_value(t, "width"@)) {
                (Some(h), Some(_)) => !(value_range(t, "width"@).0 <= h < value_range(
                    t,
                    "width"@,
                ).1),
                _ => true,
            }
        }),
{
    let (wn, hn) = ("width"@, "height"@);
    let (wm, hm) = (attr_start(wn), attr_start(hn));
    let t = with_attr(tag, wn, a);
    let d = decimal(a as nat);
    let quote = "\""@;
    lemma_needles();
    lemma_quote_needle();
    if attr_value(tag, wn) is Some {
        let (at, end) = value_range(tag, wn);
        lemma_value_range(tag, wn, a);
        lemma_attr_places(tag, wn, a);
        lemma_first_place(t, hm, 0);
        if let Some(h) = first_place(t, hm, 0) {
            lemma_place_before(tag, at, end, d, hm, h);
            if first_place(t, quote, h + 8) == Some(at - 7 + 6) {
                // The height stands in front of the width, in both texts.
                lemma_first_place(t, quote, h + 8);
                assert(h + 8 <= at);
                assert(stands_at(tag, hm, h));
                lemma_first_place(tag, hm, 0);
                let p = first_place(tag, hm, 0)->0;
                assert forall|j: int| 0 <= j < h implies !(#[trigger] stands_at(tag, hm, j)) by {
                    if stands_at(tag, hm, j) {
                        lemma_place_after(tag, at, end, d, hm, j);
                    }
                }
                lemma_is_first_place(tag, hm, 0, h);
                lemma_stands(tag, quote, at - 1);
                reveal_strlit("\"");
                assert(stands_at(tag, quote, at - 1));
                assert forall|j: int| h + 8 <= j < at - 1 implies !(#[trigger] stands_at(
                    tag,
                    quote,
                    j,
                )) by {
                    if stands_at(tag, quote, j) {
                        lemma_place_after(tag, at, end, d, quote, j);
                    }
                }
                lemma_is_first_place(tag, quote, h + 8, at - 1);
            }
        }
    }
}

/// A candy block is read back as it was written: whatever stands around it, and whatever it
/// holds, as long as the marker does not occur before it and the end of a text does not occur in
/// it.
pub proof fn law_block_reads_back(front: Seq<char>, json: Seq<char>, back: Seq<char>)
    requires
        ({
            let svg = front + "<text lang=\"candy-json\">"@ + json + "</text>"@ + back;
            let body = front.len() + 24;
            &&& forall|j: int|
                0 <= j < front.len() + 6 ==> !#[trigger] stands_at(
                    svg,
                    "lang=\"candy-json\""@,
                    j,
                )
            &&& forall|j: int|
                body <= j < body + json.len() ==> !#[trigger] stands_at(svg, "</text>"@, j)
        }),
    ensures
        candy_block(front + "<text lang=\"candy-json\">"@ + json + "</text>"@ + back) == Ok::<
            Seq<char>,
            SvgFault,
        >(json),
{
    reveal_strlit("<text lang=\"candy-json\">");
    reveal_strlit("lang=\"candy-json\"");
    reveal_strlit("<text");
    reveal_strlit(">");
    reveal_strlit("</text>");
    let open = "<text lang=\"candy-json\">"@;
    let close = "</text>"@;
    let svg = front + open + json + close + back;
    let n = front.len() as int;
    assert forall|k: int| 0 <= k < 24 implies svg[n + k] == #[trigger] open[k] by {}
    let marker = n + 6;
    assert(svg.subrange(marker, marker + 17) =~= "lang=\"candy-json\""@);
    lemma_is_first_place(svg, "lang=\"candy-json\""@, 0, marker);
    assert(!stands_at(svg, "<text"@, marker - 5)) by {
        if stands_at(svg, "<text"@, marker - 5) {
            assert(svg.subrange(marker - 5, marker)[0] == '<');
            assert(svg[n + 1] == open[1]);
        }
    }
    assert(svg.subrange(n, n + 5) =~= "<text"@);
    assert(stands_at(svg, "<text"@, n));
    assert(last_place(svg, "<text"@, marker - 1) == Some(n));
    assert(last_place(svg, "<text"@, marker) == Some(n));
    let end = n + 23;
    assert(svg.subrange(end, end + 1) =~= ">"@);
    assert forall|j: int| n <= j < end implies !(#[trigger] stands_at(svg, ">"@, j)) by {
        if stands_at(svg, ">"@, j) {
            assert(svg.subrange(j, j + 1)[0] == '>');
            assert(svg[n + (j - n)] == open[j - n]);
        }
    }
    lemma_is_first_place(svg, ">"@, n, end);
    let stop = n + 24 + json.len();
    assert(svg.subrange(stop, stop + 7) =~= close);
    assert(!stands_at(svg, close, end)) by {
        if stands_at(svg, close, end) {
            assert(svg.subrange(end, end + 7)[0] == '<');
        }
    }
    assert forall|j: int| end <= j < stop implies !(#[trigger] stands_at(svg, close, j)) by {}
    lemma_is_first_place(svg, close, end, stop);
    assert(svg.subrange(end + 1, stop) =~= json);
}

// ---------------------------------------------------------------- pixels

/// Whether a picture of this size can be drawn: neither side is 0, and a row fits a signed 32-bit
/// number of bytes.
pub open spec fn drawable(width: u32, height: u32) -> bool {
    0 < width && 0 < height && width * 4 <= i32::MAX
}

/// Whether a picture of this size can be drawn.
pub fn is_drawable(width: u32, height: u32) -> (r: bool)
    ensures
        r == drawable(width, height),
{
    0 < width && 0 < height && width <= 0x1fff_ffff
}

/// Makes a frame of what came out of drawing a document: `parsed` tells why it could not be
/// parsed, if so, and `pixels` are the bytes that were drawn, if there was room for them.
pub fn frame_of_drawing(
    parsed: Result<(), String>,
    pixels: Option<Vec<u8>>,
    width: u32,
    height: u32,
) -> (r: Result<RenderedFrame, CandyError>)
    requires
        parsed is Ok ==> (pixels matches Some(v) ==> v@.len() == width * height * 4),
    ensures
        match (parsed, pixels) {
            (Err(why), _) => r matches Err(e) && e@ == ErrorView::Encode("usvg parse: "@ + why@),
            (Ok(_), None) => r matches Err(e) && e@ == ErrorView::Encode(
                "failed to allocate pixmap"@,
            ),
            (Ok(_), Some(v)) => r matches Ok(f) && f@ == (FrameView {
                width: width as usize,
                height: height as usize,
                rgba: v@,
            }) && f@.full(),
        },
{
    match parsed {
        Err(why) => Err(CandyError::Encode(join2("usvg parse: ", why.as_str()))),
        Ok(_) => match pixels {
            None => Err(CandyError::Encode("failed to allocate pixmap".to_owned())),
            Some(rgba) => Ok(
                RenderedFrame { width: width as usize, height: height as usize, rgba },
            ),
        },
    }
}

// ---------------------------------------------------------------- rows

/// The number of bytes from one row of a picture to the next where each row starts at a multiple
/// of `align`.
pub open spec fn row_stride(width: u32, align: u32) -> int {
    (width * 4 + align - 1) / (align as int) * align
}

/// Finds the number of bytes from one row of a picture to the next.
pub fn find_row_stride(width: u32, align: u32) -> (r: u64)
    requires
        align >= 1,
    ensures
        r == row_stride(width, align),
        r >= width * 4,
        r % (align as u64) == 0,
{
    let row: u64 = width as u64 * 4;
    proof {
        lemma_row_stride(width, align);
    }
    (row + (align as u64 - 1)) / align as u64 * align as u64
}

proof fn lemma_row_stride(width: u32, align: u32)
    requires
        align >= 1,
    ensures
        width * 4 <= row_stride(width, align) < width * 4 + align,
        row_stride(width, align) % (align as int) == 0,
{
    let n = width * 4 + align - 1;
    let a = align as int;
    vstd::arithmetic::div_mod::lemma_fundamental_div_mod(n, a);
    vstd::arithmetic::div_mod::lemma_mod_multiples_basic(n / a, a);
    assert(n / a * a == a * (n / a)) by (nonlinear_arith);
}

/// The first `rows` rows of a picture, one right behind the other.
pub open spec fn tight(data: Seq<u8>, row: int, stride: int, rows: int) -> Seq<u8>
    decreases rows,
{
    if rows <= 0 {
        Seq::empty()
    } else {
        tight(data, row, stride, rows - 1) + data.subrange(
            (rows - 1) * stride,
            (rows - 1) * stride + row,
        )
    }
}

/// Makes a frame of a picture whose rows start at multiples of `align`: the bytes between the
/// rows are left out.
pub fn frame_of_rows(data: &[u8], width: u32, height: u32, align: u32) -> (r: RenderedFrame)
    requires
        align >= 1,
        row_stride(width, align) * height <= data@.len(),
    ensures
        r@.width == width,
        r@.height == height,
        r@.rgba == tight(data@, width * 4, row_stride(width, align), height as int),
        r@.full(),
{
    let total: usize = data.len();
    let stride: u64 = find_row_stride(width, align);
    let row: u64 = width as u64 * 4;
    let mut rgba: Vec<u8> = Vec::new();
    let mut y: u32 = 0;
    while y < height
        invariant
            y <= height,
            total == data@.len(),
            row == width * 4,
            row <= stride == row_stride(width, align),
            stride * height <= data@.len(),
            rgba@ == tight(data@, row as int, stride as int, y as int),
            rgba@.len() == y * row,
        decreases height - y,
    {
        assert((y + 1) * stride <= height * stride) by (nonlinear_arith)
            requires
                y + 1 <= height,
                0 <= stride,
        ;
        assert((y + 1) * stride == y * stride + stride) by (nonlinear_arith);
        assert((y + 1) * row == y * row + row) by (nonlinear_arith);
        assert(0 <= y * stride) by (nonlinear_arith)
            requires
                0 <= y,
                0 <= stride,
        ;
        assert(height * stride == stride * height) by (nonlinear_arith);
        let start: usize = (y as u64 * stride) as usize;
        let end: usize = start + row as usize;
        push_all(&mut rgba, vstd::slice::slice_subrange(data, start, end));
        y += 1;
    }
    proof {
        assert(height * (width * 4) == width * height * 4) by (nonlinear_arith);
    }
    RenderedFrame { width: width as usize, height: height as usize, rgba }
}

} // verus!
