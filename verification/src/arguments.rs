//! What a call is given, told from the places of its arguments, and how it is read.

use vstd::prelude::*;
use crate::args::{
    angle_step, delay_arg, duration_arg, easing_step, named_number, number_or, optional_duration,
    place_arg, ratio_step, string_or, target_label, timing_arg,
};
use crate::context::CtxView;
use crate::easing::Easing;
use crate::expr::{
    angle_value, bool_value, call_items, first_ident, first_kind, first_sign, items, last_expr,
    last_kind, last_named, length_value, named_value, nth_expr, number_value, numeric_value,
    pair_value, pos_arg, pos_or_named, ratio_value, sign_of, track_key,
};
use crate::number::{Angle, AngleUnit, Length, LengthUnit, Number, Ratio};
use crate::scene::{SubPos, Timing};
use crate::syntax::{Kind, NodeView};

verus! {

// ---------------------------------------------------------------- places of arguments

/// Whether `a` is the argument list of a call: its last child of that kind.
pub open spec fn arguments(call: NodeView, a: NodeView) -> bool {
    a.kind == Kind::Args && exists|k: int|
        0 <= k < call.children.len() && #[trigger] call.children[k] == a && forall|j: int|
            k < j < call.children.len() ==> (#[trigger] call.children[j]).kind != Kind::Args
}

/// Whether a node is an argument with the given name: its first identifier is that name.
pub open spec fn has_name(n: NodeView, name: Seq<char>) -> bool {
    n.kind == Kind::Named && exists|k: int|
        0 <= k < n.children.len() && (#[trigger] n.children[k]).kind == Kind::Ident
            && n.children[k].text == name && forall|j: int|
            0 <= j < k ==> (#[trigger] n.children[j]).kind != Kind::Ident
}

/// Whether `e` is the value of a named argument: its last expression.
pub open spec fn has_value(n: NodeView, e: NodeView) -> bool {
    e.expr && exists|k: int|
        0 <= k < n.children.len() && #[trigger] n.children[k] == e && forall|j: int|
            k < j < n.children.len() ==> !(#[trigger] n.children[j]).expr
}

/// Whether a call is given `e` under a name. Where a name is there more than once, its last
/// argument counts.
pub open spec fn given(call: NodeView, name: Seq<char>, e: NodeView) -> bool {
    exists|a: NodeView, i: int|
        #![trigger arguments(call, a), a.children[i]]
        arguments(call, a) && 0 <= i < a.children.len() && has_name(a.children[i], name)
            && has_value(a.children[i], e) && forall|j: int|
            i < j < a.children.len() ==> !has_name(#[trigger] a.children[j], name)
}

/// Whether a call is given nothing under a name.
pub open spec fn withheld(call: NodeView, name: Seq<char>) -> bool {
    forall|a: NodeView, i: int|
        #![trigger arguments(call, a), a.children[i]]
        arguments(call, a) && 0 <= i < a.children.len() ==> !has_name(a.children[i], name)
}

/// Whether `e` is the argument without a name that has `i` others in front of it.
pub open spec fn in_place(call: NodeView, i: nat, e: NodeView) -> bool {
    e.expr && exists|a: NodeView, k: int|
        #![trigger arguments(call, a), a.children[k]]
        arguments(call, a) && 0 <= k < a.children.len() && a.children[k] == e
            && a.children.take(k).filter(|n: NodeView| n.expr).len() == i
}

/// Whether a call has at most `i` arguments without a name.
pub open spec fn no_more_than(call: NodeView, i: nat) -> bool {
    forall|a: NodeView|
        #[trigger] arguments(call, a) ==> a.children.filter(|n: NodeView| n.expr).len() <= i
}

proof fn lemma_last_kind(s: Seq<NodeView>, kind: Kind, k: int)
    requires
        0 <= k < s.len(),
        s[k].kind == kind,
        forall|j: int| k < j < s.len() ==> (#[trigger] s[j]).kind != kind,
    ensures
        last_kind(s, kind) == Some(s[k]),
    decreases s.len(),
{
    if k < s.len() - 1 {
        assert(s[s.len() - 1].kind != kind);
        lemma_last_kind(s.drop_last(), kind, k);
    }
}

proof fn lemma_no_kind(s: Seq<NodeView>, kind: Kind)
    ensures
        match last_kind(s, kind) {
            Some(n) => exists|k: int|
                0 <= k < s.len() && #[trigger] s[k] == n && n.kind == kind && forall|j: int|
                    k < j < s.len() ==> (#[trigger] s[j]).kind != kind,
            None => forall|j: int| 0 <= j < s.len() ==> (#[trigger] s[j]).kind != kind,
        },
    decreases s.len(),
{
    if s.len() > 0 {
        if s.last().kind == kind {
            assert(s[s.len() - 1] == s.last());
        } else {
            let t = s.drop_last();
            lemma_no_kind(t, kind);
            match last_kind(t, kind) {
                Some(n) => {
                    let k = choose|k: int|
                        0 <= k < t.len() && #[trigger] t[k] == n && forall|j: int|
                            k < j < t.len() ==> (#[trigger] t[j]).kind != kind;
                    assert(s[k] == n);
                    assert forall|j: int| k < j < s.len() implies (#[trigger] s[j]).kind
                        != kind by {
                        if j < t.len() {
                            assert(t[j] == s[j]);
                        }
                    }
                },
                None => {
                    assert forall|j: int| 0 <= j < s.len() implies (#[trigger] s[j]).kind
                        != kind by {
                        if j < t.len() {
                            assert(t[j] == s[j]);
                        }
                    }
                },
            }
        }
    }
}

proof fn lemma_first_kind(s: Seq<NodeView>, kind: Kind, k: int)
    requires
        0 <= k < s.len(),
        s[k].kind == kind,
        forall|j: int| 0 <= j < k ==> (#[trigger] s[j]).kind != kind,
    ensures
        first_kind(s, kind) == Some(s[k]),
    decreases s.len(),
{
    if k > 0 {
        assert(s[0].kind != kind);
        let t = s.subrange(1, s.len() as int);
        assert forall|j: int| 0 <= j < k - 1 implies (#[trigger] t[j]).kind != kind by {
            assert(t[j] == s[j + 1]);
        }
        lemma_first_kind(t, kind, k - 1);
    }
}

proof fn lemma_some_first(s: Seq<NodeView>, kind: Kind)
    ensures
        first_kind(s, kind) matches Some(n) ==> exists|k: int|
            0 <= k < s.len() && #[trigger] s[k] == n && n.kind == kind && forall|j: int|
                0 <= j < k ==> (#[trigger] s[j]).kind != kind,
    decreases s.len(),
{
    if s.len() > 0 {
        if s[0].kind != kind {
            let t = s.subrange(1, s.len() as int);
            lemma_some_first(t, kind);
            if let Some(n) = first_kind(t, kind) {
                let k = choose|k: int|
                    0 <= k < t.len() && #[trigger] t[k] == n && forall|j: int|
                        0 <= j < k ==> (#[trigger] t[j]).kind != kind;
                assert(s[k + 1] == n);
                assert forall|j: int| 0 <= j < k + 1 implies (#[trigger] s[j]).kind != kind by {
                    if j > 0 {
                        assert(t[j - 1] == s[j]);
                    }
                }
            }
        }
    }
}

pub proof fn lemma_name(n: NodeView, name: Seq<char>)
    ensures
        has_name(n, name) ==> n.kind == Kind::Named && first_ident(n.children) == name,
        name.len() > 0 && n.kind == Kind::Named && first_ident(n.children) == name ==> has_name(
            n,
            name,
        ),
{
    if has_name(n, name) {
        let k = choose|k: int|
            0 <= k < n.children.len() && (#[trigger] n.children[k]).kind == Kind::Ident
                && n.children[k].text == name && forall|j: int|
                0 <= j < k ==> (#[trigger] n.children[j]).kind != Kind::Ident;
        lemma_first_kind(n.children, Kind::Ident, k);
    }
    lemma_some_first(n.children, Kind::Ident);
}

proof fn lemma_last_expr(s: Seq<NodeView>, k: int)
    requires
        0 <= k < s.len(),
        s[k].expr,
        forall|j: int| k < j < s.len() ==> !(#[trigger] s[j]).expr,
    ensures
        last_expr(s) == Some(s[k]),
    decreases s.len(),
{
    if k < s.len() - 1 {
        assert(!s[s.len() - 1].expr);
        lemma_last_expr(s.drop_last(), k);
    }
}

proof fn lemma_last_named(s: Seq<NodeView>, name: Seq<char>, i: int)
    requires
        name.len() > 0,
        0 <= i < s.len(),
        has_name(s[i], name),
        forall|j: int| i < j < s.len() ==> !has_name(#[trigger] s[j], name),
    ensures
        last_named(s, name) == Some(s[i]),
    decreases s.len(),
{
    lemma_name(s.last(), name);
    if i < s.len() - 1 {
        assert(!has_name(s[s.len() - 1], name));
        lemma_last_named(s.drop_last(), name, i);
    }
}

proof fn lemma_none_named(s: Seq<NodeView>, name: Seq<char>)
    requires
        name.len() > 0,
        forall|j: int| 0 <= j < s.len() ==> !has_name(#[trigger] s[j], name),
    ensures
        last_named(s, name) is None,
    decreases s.len(),
{
    if s.len() > 0 {
        lemma_name(s.last(), name);
        assert(!has_name(s[s.len() - 1], name));
        lemma_none_named(s.drop_last(), name);
    }
}

/// The value of a named argument is its last expression.
pub proof fn lemma_value(n: NodeView, e: NodeView)
    requires
        has_value(n, e),
    ensures
        crate::expr::right_side(n) == e,
{
    let m = choose|m: int|
        0 <= m < n.children.len() && #[trigger] n.children[m] == e && forall|j: int|
            m < j < n.children.len() ==> !(#[trigger] n.children[j]).expr;
    lemma_last_expr(n.children, m);
}

/// Where a named argument stands among the items of a call.
pub proof fn lemma_given_at(call: NodeView, name: Seq<char>, e: NodeView) -> (i: int)
    requires
        given(call, name, e),
    ensures
        0 <= i < call_items(call).len(),
        has_name(call_items(call)[i], name),
        has_value(call_items(call)[i], e),
        forall|j: int| i < j < call_items(call).len() ==> !has_name(
            #[trigger] call_items(call)[j],
            name,
        ),
{
    let (a, i) = choose|a: NodeView, i: int|
        #![trigger arguments(call, a), a.children[i]]
        arguments(call, a) && 0 <= i < a.children.len() && has_name(a.children[i], name)
            && has_value(a.children[i], e) && forall|j: int|
            i < j < a.children.len() ==> !has_name(#[trigger] a.children[j], name);
    let k = choose|k: int|
        0 <= k < call.children.len() && #[trigger] call.children[k] == a && forall|j: int|
            k < j < call.children.len() ==> (#[trigger] call.children[j]).kind != Kind::Args;
    lemma_last_kind(call.children, Kind::Args, k);
    i
}

/// No item of a call has a name that the call is not given.
pub proof fn lemma_withheld_at(call: NodeView, name: Seq<char>)
    requires
        withheld(call, name),
    ensures
        forall|j: int| 0 <= j < call_items(call).len() ==> !has_name(
            #[trigger] call_items(call)[j],
            name,
        ),
{
    lemma_no_kind(call.children, Kind::Args);
    if let Some(a) = last_kind(call.children, Kind::Args) {
        assert(arguments(call, a));
    }
}

/// What a call is given under a name is read as the value of that name.
pub proof fn law_named_argument(call: NodeView, name: Seq<char>, e: NodeView)
    requires
        name.len() > 0,
        given(call, name, e),
    ensures
        named_value(call, name) == Some(e),
{
    let i = lemma_given_at(call, name, e);
    lemma_last_named(call_items(call), name, i);
    lemma_value(call_items(call)[i], e);
}

/// A name that a call is not given has no value.
pub proof fn law_missing_argument(call: NodeView, name: Seq<char>)
    requires
        name.len() > 0,
        withheld(call, name),
    ensures
        named_value(call, name) is None,
{
    lemma_withheld_at(call, name);
    lemma_none_named(call_items(call), name);
}

proof fn lemma_nth(s: Seq<NodeView>, k: int)
    requires
        0 <= k < s.len(),
        s[k].expr,
    ensures
        nth_expr(s, s.take(k).filter(|n: NodeView| n.expr).len()) == Some(s[k]),
    decreases s.len(),
{
    let keep = |n: NodeView| n.expr;
    let t = s.subrange(1, s.len() as int);
    if k == 0 {
        reveal(Seq::filter);
        assert(s.take(0) =~= Seq::<NodeView>::empty());
    } else {
        let head = s.take(1);
        assert(s.take(k) =~= head + t.take(k - 1));
        Seq::filter_distributes_over_add(head, t.take(k - 1), keep);
        reveal(Seq::filter);
        assert(head.drop_last() =~= Seq::<NodeView>::empty());
        assert(head.last() == s[0]);
        lemma_nth(t, k - 1);
        let m = t.take(k - 1).filter(keep).len();
        assert(nth_expr(t, m) == Some(s[k]));
        let none = Seq::<NodeView>::empty();
        assert(none.filter(keep) =~= none);
        if s[0].expr {
            assert(head.filter(keep) =~= seq![s[0]]);
            assert(s.take(k).filter(keep).len() == m + 1);
        } else {
            assert(head.filter(keep) =~= none);
            assert(s.take(k).filter(keep).len() == m);
        }
    }
}

proof fn lemma_nth_missing(s: Seq<NodeView>, i: nat)
    requires
        s.filter(|n: NodeView| n.expr).len() <= i,
    ensures
        nth_expr(s, i) is None,
    decreases s.len(),
{
    let keep = |n: NodeView| n.expr;
    if s.len() > 0 {
        let t = s.subrange(1, s.len() as int);
        let head = s.take(1);
        assert(s =~= head + t);
        Seq::filter_distributes_over_add(head, t, keep);
        reveal(Seq::filter);
        assert(head.drop_last() =~= Seq::<NodeView>::empty());
        assert(head.last() == s[0]);
        if s[0].expr {
            assert(i > 0);
            lemma_nth_missing(t, (i - 1) as nat);
        } else {
            lemma_nth_missing(t, i);
        }
    }
}

/// The arguments without a name are counted from 0 on, without regard to those that have one.
pub proof fn law_positional_argument(call: NodeView, i: nat, e: NodeView)
    requires
        in_place(call, i, e),
    ensures
        pos_arg(call, i) == Some(e),
{
    let (a, k) = choose|a: NodeView, k: int|
        #![trigger arguments(call, a), a.children[k]]
        arguments(call, a) && 0 <= k < a.children.len() && a.children[k] == e && a.children.take(
            k,
        ).filter(|n: NodeView| n.expr).len() == i;
    let m = choose|m: int|
        0 <= m < call.children.len() && #[trigger] call.children[m] == a && forall|j: int|
            m < j < call.children.len() ==> (#[trigger] call.children[j]).kind != Kind::Args;
    lemma_last_kind(call.children, Kind::Args, m);
    lemma_nth(a.children, k);
}

/// A call has no argument without a name behind its last one.
pub proof fn law_missing_positional(call: NodeView, i: nat)
    requires
        no_more_than(call, i),
    ensures
        pos_arg(call, i) is None,
{
    lemma_no_kind(call.children, Kind::Args);
    if let Some(a) = last_kind(call.children, Kind::Args) {
        assert(arguments(call, a));
        lemma_nth_missing(a.children, i);
    }
}

/// An argument that can be given in its place or under its name is read from its place first.
pub proof fn law_place_before_name(call: NodeView, i: nat, name: Seq<char>, e: NodeView)
    requires
        name.len() > 0,
        in_place(call, i, e) || (no_more_than(call, i) && given(call, name, e)),
    ensures
        pos_or_named(call, i, name) == Some(e),
{
    if in_place(call, i, e) {
        law_positional_argument(call, i, e);
    } else {
        law_missing_positional(call, i);
        law_named_argument(call, name, e);
    }
}

/// The target of a directive is the string that stands first, or under `target`.
pub proof fn law_target(call: NodeView, e: NodeView, label: Seq<char>)
    requires
        in_place(call, 0, e) || (no_more_than(call, 0) && given(call, "target"@, e)),
        e.value == Some(label),
    ensures
        target_label(call) == Some(label),
{
    reveal_strlit("target");
    law_place_before_name(call, 0, "target"@, e);
}

// ---------------------------------------------------------------- values

/// The names of the units of a length.
pub open spec fn unit_name(u: LengthUnit) -> Seq<char> {
    match u {
        LengthUnit::Cm => "Cm"@,
        LengthUnit::Mm => "Mm"@,
        LengthUnit::Pt => "Pt"@,
        LengthUnit::In => "In"@,
    }
}

/// A number with a unit of length is that length; a number without a unit is a length in
/// centimetres.
pub proof fn law_length(n: NodeView, unit: LengthUnit)
    ensures
        n.kind == Kind::Numeric && numeric_value(n.text).1 == unit_name(unit) ==> length_value(n)
            == Some(
            Length { value: Number::Double(numeric_value(n.text).0), unit, negative: false },
        ),
        n.kind == Kind::Int || n.kind == Kind::Float ==> (length_value(n) matches Some(l) && Some(
            l.value,
        ) == number_value(Some(n)) && l.unit == LengthUnit::Cm && !l.negative),
{
    reveal_strlit("Cm");
    reveal_strlit("Mm");
    reveal_strlit("Pt");
    reveal_strlit("In");
    assert("Cm"@[0] != "Mm"@[0]);
    assert("Cm"@[0] != "Pt"@[0]);
    assert("Cm"@[0] != "In"@[0]);
    assert("Mm"@[0] != "Pt"@[0]);
    assert("Mm"@[0] != "In"@[0]);
    assert("Pt"@[0] != "In"@[0]);
}

/// A minus in front of a length turns it round, a plus leaves it as it is.
pub proof fn law_signed_length(n: NodeView, sign: int, e: int, l: Length)
    requires
        n.kind == Kind::Unary,
        0 <= sign < e < n.children.len(),
        n.children[sign].kind == Kind::Minus || n.children[sign].kind == Kind::Plus,
        forall|j: int|
            0 <= j < sign ==> !((#[trigger] n.children[j]).kind == Kind::Minus || n.children[j].kind
                == Kind::Plus || n.children[j].kind == Kind::Not),
        n.children[e].expr,
        forall|j: int| e < j < n.children.len() ==> !(#[trigger] n.children[j]).expr,
        length_value(n.children[e]) == Some(l),
    ensures
        length_value(n) matches Some(m) && m.value == l.value && m.unit == l.unit && (m.negative
            == l.negative) == (n.children[sign].kind == Kind::Plus),
{
    lemma_last_expr(n.children, e);
    lemma_first_sign(n.children, sign);
}

proof fn lemma_first_sign(s: Seq<NodeView>, k: int)
    requires
        0 <= k < s.len(),
        sign_of(s[k].kind) is Some,
        forall|j: int| 0 <= j < k ==> sign_of((#[trigger] s[j]).kind) is None,
    ensures
        Some(first_sign(s)) == sign_of(s[k].kind),
    decreases s.len(),
{
    if k > 0 {
        assert(sign_of(s[0].kind) is None);
        let t = s.subrange(1, s.len() as int);
        assert forall|j: int| 0 <= j < k - 1 implies sign_of((#[trigger] t[j]).kind) is None by {
            assert(t[j] == s[j + 1]);
        }
        lemma_first_sign(t, k - 1);
    }
}

/// The items of an array: what stands between its brackets and commas.
pub open spec fn array_of(e: NodeView, s: Seq<NodeView>) -> bool {
    e.kind == Kind::Array && e.children.filter(
        |n: NodeView| n.expr || n.kind == Kind::Spread,
    ) == s && forall|i: int| 0 <= i < s.len() ==> (#[trigger] s[i]).kind != Kind::Spread
}

pub proof fn lemma_items_filter(s: Seq<NodeView>)
    ensures
        items(s) == s.filter(|n: NodeView| n.expr || n.kind == Kind::Spread),
    decreases s.len(),
{
    reveal(Seq::filter);
    if s.len() > 0 {
        lemma_items_filter(s.drop_last());
    } else {
        assert(items(s) =~= s);
    }
}

/// An array of two lengths is a pair of them, the first one first.
pub proof fn law_pair(e: NodeView, x: NodeView, y: NodeView, lx: Length, ly: Length)
    requires
        array_of(e, seq![x, y]),
        length_value(x) == Some(lx),
        length_value(y) == Some(ly),
    ensures
        pair_value(Some(e)) matches Some(p) && p.0 == lx && p.1 == ly,
{
    lemma_items_filter(e.children);
    assert(seq![x, y][0] == x && seq![x, y][1] == y);
}

/// An array with another number of items is no pair of lengths.
pub proof fn law_no_pair(e: NodeView, s: Seq<NodeView>)
    requires
        array_of(e, s),
        s.len() != 2 || length_value(s[0]) is None || length_value(s[1]) is None,
    ensures
        pair_value(Some(e)) is None,
{
    lemma_items_filter(e.children);
}

/// A keyframe of a track is a time and a state: place, scale, opacity and rotation, in this order.
pub proof fn law_track_key(e: NodeView, t: NodeView, b: NodeView, q: Seq<NodeView>, ms: i64)
    requires
        array_of(e, seq![t, b]),
        array_of(b, q),
        q.len() == 5,
        number_value(Some(t)) == Some(Number::Int(ms)),
        0 <= ms <= u32::MAX,
    ensures
        track_key(e) matches Some(k) && {
            &&& k.t == ms
            &&& k.x == length_value(q[0])
            &&& k.y == length_value(q[1])
            &&& k.scale == number_value(Some(q[2]))
            &&& k.opacity == number_value(Some(q[3]))
            &&& k.rotation == number_value(Some(q[4]))
        },
{
    lemma_items_filter(e.children);
    lemma_items_filter(b.children);
    assert(seq![t, b][0] == t && seq![t, b][1] == b);
}

/// A number in percent is a ratio, a number in degrees or radians an angle, and nothing else is.
pub proof fn law_ratio_and_angle(n: NodeView)
    ensures
        ratio_value(Some(n)) matches Some(r) ==> r.percent == Number::Double(
            numeric_value(n.text).0,
        ),
        ratio_value(Some(n)) is Some <==> n.kind == Kind::Numeric && numeric_value(n.text).1
            == "Percent"@,
        angle_value(Some(n)) matches Some(a) ==> a.value == Number::Double(
            numeric_value(n.text).0,
        ) && (a.unit == AngleUnit::Deg <==> numeric_value(n.text).1 == "Deg"@) && (a.unit
            == AngleUnit::Rad <==> numeric_value(n.text).1 == "Rad"@),
        angle_value(Some(n)) is Some <==> n.kind == Kind::Numeric && (numeric_value(n.text).1
            == "Deg"@ || numeric_value(n.text).1 == "Rad"@),
{
    reveal_strlit("Deg");
    reveal_strlit("Rad");
    assert("Deg"@[0] != "Rad"@[0]);
}

/// The two truth values.
pub proof fn law_truth(n: NodeView)
    ensures
        bool_value(Some(n)) == Some(true) <==> n.kind == Kind::Bool && n.text == "true"@,
        bool_value(Some(n)) == Some(false) <==> n.kind == Kind::Bool && n.text != "true"@,
        bool_value(Some(n)) is None <==> n.kind != Kind::Bool,
{
}

// ---------------------------------------------------------------- times and easing

/// A directive starts together with the one before it where `timing` is `"with"`, and after
/// everything otherwise.
pub proof fn law_timing(call: NodeView, e: NodeView)
    ensures
        given(call, "timing"@, e) && e.value == Some("with"@) ==> timing_arg(call) == Some(
            Timing::With,
        ),
        given(call, "timing"@, e) && e.value != Some("with"@) ==> timing_arg(call) != Some(
            Timing::With,
        ),
        withheld(call, "timing"@) ==> timing_arg(call) is None,
{
    reveal_strlit("timing");
    if given(call, "timing"@, e) {
        law_named_argument(call, "timing"@, e);
    }
    if withheld(call, "timing"@) {
        law_missing_argument(call, "timing"@);
    }
}

/// The duration of a directive is the whole number of milliseconds that it is given, at least one,
/// or its default; its delay likewise, where 0 is the least and the default.
pub proof fn law_duration_and_delay(call: NodeView, e: NodeView, n: i64, default: i64)
    requires
        number_value(Some(e)) == Some(Number::Int(n)),
        0 <= n <= u32::MAX,
        1 <= default <= u32::MAX,
    ensures
        given(call, "duration"@, e) && n >= 1 ==> duration_arg(call, default) == n
            && optional_duration(call) == Some(n as u32),
        given(call, "duration"@, e) && n == 0 ==> duration_arg(call, default) == 1
            && optional_duration(call) == Some(1u32),
        withheld(call, "duration"@) ==> duration_arg(call, default) == default && optional_duration(
            call,
        ) is None,
        given(call, "delay"@, e) ==> delay_arg(call) == n,
        withheld(call, "delay"@) ==> delay_arg(call) == 0,
{
    reveal_strlit("duration");
    reveal_strlit("delay");
    if given(call, "duration"@, e) {
        law_named_argument(call, "duration"@, e);
    }
    if withheld(call, "duration"@) {
        law_missing_argument(call, "duration"@);
    }
    if given(call, "delay"@, e) {
        law_named_argument(call, "delay"@, e);
    }
    if withheld(call, "delay"@) {
        law_missing_argument(call, "delay"@);
    }
}

/// A number under a name is read as it was written; without it the default holds.
pub proof fn law_number(call: NodeView, name: Seq<char>, e: NodeView, default: i64)
    requires
        name.len() > 0,
    ensures
        given(call, name, e) ==> named_number(call, name) == number_value(Some(e)),
        given(call, name, e) && number_value(Some(e)) is Some ==> Some(
            number_or(call, name, default),
        ) == number_value(Some(e)),
        withheld(call, name) ==> named_number(call, name) is None && number_or(call, name, default)
            == Number::Int(default),
{
    if given(call, name, e) {
        law_named_argument(call, name, e);
    }
    if withheld(call, name) {
        law_missing_argument(call, name);
    }
}

/// A string under a name is read with its escapes resolved; without it the default holds.
pub proof fn law_string(call: NodeView, name: Seq<char>, e: NodeView, default: Seq<char>)
    requires
        name.len() > 0,
    ensures
        given(call, name, e) && e.value is Some ==> Some(string_or(call, name, default)) == e.value,
        withheld(call, name) ==> string_or(call, name, default) == default,
{
    if given(call, name, e) {
        law_named_argument(call, name, e);
    }
    if withheld(call, name) {
        law_missing_argument(call, name);
    }
}

/// The names of the easing curves.
pub open spec fn curve_name(e: Easing) -> Seq<char> {
    match e {
        Easing::Linear => "linear"@,
        Easing::Smooth => "smooth"@,
        Easing::EaseInOut => "ease-in-out"@,
        Easing::CubicInOut => "cubic-in-out"@,
        Easing::Wiggle => "wiggle"@,
    }
}

/// A directive has the easing that it names; where it names none it has its default, and where
/// there is no curve of that name it is linear and the author is told.
pub proof fn law_easing(
    c: CtxView,
    call: NodeView,
    e: NodeView,
    label: Seq<char>,
    default: Easing,
    curve: Easing,
)
    ensures
        given(call, "easing"@, e) && e.value == Some(curve_name(curve)) ==> easing_step(
            c,
            call,
            label,
            default,
        ) == (c, curve),
        withheld(call, "easing"@) ==> easing_step(c, call, label, default) == (c, default),
        given(call, "easing"@, e) && e.value is Some && (forall|k: Easing|
            e.value != Some(#[trigger] curve_name(k))) ==> {
            let (d, used) = easing_step(c, call, label, default);
            &&& used == Easing::Linear
            &&& d.warnings.len() == c.warnings.len() + 1
            &&& d == (CtxView { warnings: d.warnings, ..c })
        },
{
    reveal_strlit("easing");
    if given(call, "easing"@, e) {
        law_named_argument(call, "easing"@, e);
    }
    if withheld(call, "easing"@) {
        law_missing_argument(call, "easing"@);
    }
    reveal_strlit("linear");
    reveal_strlit("smooth");
    reveal_strlit("ease-in-out");
    reveal_strlit("cubic-in-out");
    reveal_strlit("wiggle");
    assert("linear"@[0] != "smooth"@[0]);
    assert("linear"@[0] != "wiggle"@[0]);
    assert("smooth"@[0] != "wiggle"@[0]);
    assert(curve_name(Easing::Linear) == "linear"@);
    assert(curve_name(Easing::Smooth) == "smooth"@);
    assert(curve_name(Easing::EaseInOut) == "ease-in-out"@);
    assert(curve_name(Easing::CubicInOut) == "cubic-in-out"@);
    assert(curve_name(Easing::Wiggle) == "wiggle"@);
}

/// A ratio or an angle under a name is read as it was written; where the name is not given nothing
/// is read, and where something else is given nothing is read and the document has a fault.
pub proof fn law_measure(c: CtxView, call: NodeView, name: Seq<char>, e: NodeView)
    requires
        name.len() > 0,
    ensures
        withheld(call, name) ==> ratio_step(c, call, name) == (c, None::<Ratio>) && angle_step(
            c,
            call,
            name,
        ) == (c, None::<Angle>),
        given(call, name, e) ==> ratio_step(c, call, name).1 == ratio_value(Some(e)) && angle_step(
            c,
            call,
            name,
        ).1 == angle_value(Some(e)),
        given(call, name, e) && ratio_value(Some(e)) is Some ==> ratio_step(c, call, name).0 == c,
        given(call, name, e) && angle_value(Some(e)) is Some ==> angle_step(c, call, name).0 == c,
        given(call, name, e) && ratio_value(Some(e)) is None ==> ratio_step(
            c,
            call,
            name,
        ).0.pending_error is Some,
        given(call, name, e) && angle_value(Some(e)) is None ==> angle_step(
            c,
            call,
            name,
        ).0.pending_error is Some,
{
    if given(call, name, e) {
        law_named_argument(call, name, e);
    }
    if withheld(call, name) {
        law_missing_argument(call, name);
    }
}

/// A caption stands at the place that is named, or at the two lengths that are given, across
/// first.
pub proof fn law_caption_place(call: NodeView, e: NodeView)
    ensures
        withheld(call, "position"@) ==> place_arg(call) == SubPos::Bottom,
        given(call, "position"@, e) && e.value is None ==> (pair_value(Some(e)) matches Some(p)
            ==> place_arg(call) == SubPos::Absolute(p.0, p.1)),
        given(call, "position"@, e) && e.value == Some("top"@) ==> place_arg(call) == SubPos::Top,
        given(call, "position"@, e) && e.value == Some("center"@) ==> place_arg(call)
            == SubPos::Center,
        given(call, "position"@, e) && e.value == Some("bottom"@) ==> place_arg(call)
            == SubPos::Bottom,
        given(call, "position"@, e) && e.value == Some("top-left"@) ==> place_arg(call)
            == SubPos::TopLeft,
        given(call, "position"@, e) && e.value == Some("top-right"@) ==> place_arg(call)
            == SubPos::TopRight,
        given(call, "position"@, e) && e.value == Some("bottom-left"@) ==> place_arg(call)
            == SubPos::BottomLeft,
        given(call, "position"@, e) && e.value == Some("bottom-right"@) ==> place_arg(call)
            == SubPos::BottomRight,
{
    reveal_strlit("position");
    if given(call, "position"@, e) {
        law_named_argument(call, "position"@, e);
    }
    if withheld(call, "position"@) {
        law_missing_argument(call, "position"@);
    }
    lemma_place_names();
}

proof fn lemma_place_names()
    ensures
        crate::args::named_place("top"@) == SubPos::Top,
        crate::args::named_place("center"@) == SubPos::Center,
        crate::args::named_place("bottom"@) == SubPos::Bottom,
        crate::args::named_place("top-left"@) == SubPos::TopLeft,
        crate::args::named_place("top-right"@) == SubPos::TopRight,
        crate::args::named_place("bottom-left"@) == SubPos::BottomLeft,
        crate::args::named_place("bottom-right"@) == SubPos::BottomRight,
{
    reveal_strlit("top");
    reveal_strlit("center");
    reveal_strlit("centre");
    reveal_strlit("bottom");
    reveal_strlit("top-left");
    reveal_strlit("top-right");
    reveal_strlit("bottom-left");
    reveal_strlit("bottom-right");
    assert(crate::text::lower("top"@) =~= "top"@);
    assert(crate::text::lower("center"@) =~= "center"@);
    assert(crate::text::lower("bottom"@) =~= "bottom"@);
    assert(crate::text::lower("top-left"@) =~= "top-left"@);
    assert(crate::text::lower("top-right"@) =~= "top-right"@);
    assert(crate::text::lower("bottom-left"@) =~= "bottom-left"@);
    assert(crate::text::lower("bottom-right"@) =~= "bottom-right"@);
    assert("bottom"@[0] != "center"@[0]);
    assert("bottom"@[0] != "centre"@[0]);
    assert("top-right"@[4] != "bottom-left"@[4]);
}

} // verus!
