//! How a text nests in brackets: the depth that it ends at, the commas that
//! no bracket encloses, and when one text may stand for another as a field
//! of an argument list.
use vstd::prelude::*;

use crate::metadata::format::join_fields;
use crate::metadata::type_util::first_field_end;
use crate::metadata::type_util::is_balanced;
use crate::metadata::type_util::is_field_end;
use crate::metadata::type_util::is_name_end;
use crate::metadata::type_util::lemma_first_field_end;
use crate::metadata::type_util::open_brackets;
use crate::metadata::type_util::split_fields;
use crate::text::is_trimmed;
use crate::text::is_whitespace;
use crate::text::lemma_trim;
use crate::text::trim;

verus! {

/// The depth behind one character that stands at depth `d`; `None` for a
/// `)` at depth 0.
pub open spec fn step_depth(d: nat, c: char) -> Option<nat> {
    if c == '(' {
        Some(d + 1)
    } else if c == ')' {
        if d == 0 {
            None
        } else {
            Some((d - 1) as nat)
        }
    } else {
        Some(d)
    }
}

/// The depth behind a text that starts at depth `d`; `None` once a `)`
/// stands at depth 0.
pub open spec fn depth_after(s: Seq<char>, d: nat) -> Option<nat>
    decreases s.len(),
{
    if s.len() == 0 {
        Some(d)
    } else {
        match depth_after(s.drop_last(), d) {
            None => None,
            Some(e) => step_depth(e, s.last()),
        }
    }
}

/// Position `i` of a text that starts at depth `d` holds a comma at depth 0.
pub open spec fn is_top_comma(s: Seq<char>, d: nat, i: int) -> bool {
    0 <= i < s.len() && s[i] == ',' && depth_after(s.take(i), d) == Some(0nat)
}

/// A text that starts at depth `d` holds a comma at depth 0.
pub open spec fn has_top_comma(s: Seq<char>, d: nat) -> bool {
    exists|i: int| is_top_comma(s, d, i)
}

/// Position `i` of a text that starts at depth `d` holds white space at
/// depth 0.
pub open spec fn is_top_space(s: Seq<char>, d: nat, i: int) -> bool {
    0 <= i < s.len() && is_whitespace(s[i]) && depth_after(s.take(i), d) == Some(0nat)
}

/// A text that starts at depth `d` holds white space at depth 0.
pub open spec fn has_top_space(s: Seq<char>, d: nat) -> bool {
    exists|i: int| is_top_space(s, d, i)
}

/// No white space of the text stands outside every bracket: none parts a
/// name from a type.
pub open spec fn parts_no_name(s: Seq<char>) -> bool {
    !has_top_space(s, 0)
}

/// The text holds white space.
pub open spec fn has_whitespace(s: Seq<char>) -> bool {
    exists|i: int| 0 <= i < s.len() && is_whitespace(#[trigger] s[i])
}

/// The text holds no bracket and no comma.
pub open spec fn is_plain(s: Seq<char>) -> bool {
    forall|i: int| 0 <= i < s.len() ==> is_plain_char(#[trigger] s[i])
}

/// A character that is no bracket and no comma.
pub open spec fn is_plain_char(c: char) -> bool {
    c != '(' && c != ')' && c != ','
}

/// No comma of the text ends a field.
pub open spec fn ends_no_field(s: Seq<char>) -> bool {
    !has_top_comma(s, 0)
}

/// The text is a field that a comma can follow: its brackets are balanced,
/// and none of its commas ends a field.
pub open spec fn is_field(s: Seq<char>) -> bool {
    is_balanced(s) && ends_no_field(s)
}

/// From depth `d` on, `y` nests as `x` does: it ends at the same depth, and
/// it holds a comma at depth 0, or white space at depth 0, only where `x`
/// holds one.
pub open spec fn refines_at(x: Seq<char>, y: Seq<char>, d: nat) -> bool {
    &&& depth_after(y, d) == depth_after(x, d)
    &&& has_top_comma(y, d) ==> has_top_comma(x, d)
    &&& has_top_space(y, d) ==> has_top_space(x, d)
}

/// `y` may stand where `x` stands: from every depth on it nests as `x`
/// does.
pub open spec fn refines(x: Seq<char>, y: Seq<char>) -> bool {
    forall|d: nat| #[trigger] refines_at(x, y, d)
}

/// `y` may stand where `x` stands inside brackets: from every depth but 0
/// on it nests as `x` does.
pub open spec fn refines_inside(x: Seq<char>, y: Seq<char>) -> bool {
    forall|d: nat| d >= 1 ==> #[trigger] refines_at(x, y, d)
}

/// The brackets that a text leaves open are the depth behind it from depth
/// 0 on.
pub proof fn lemma_open_brackets_is_depth(s: Seq<char>)
    ensures
        open_brackets(s) == depth_after(s, 0),
    decreases s.len(),
{
    if s.len() > 0 {
        lemma_open_brackets_is_depth(s.drop_last());
    }
}

/// A comma ends a field where it stands at depth 0.
pub proof fn lemma_field_end_is_top_comma(s: Seq<char>, i: int)
    ensures
        is_field_end(s, i) <==> is_top_comma(s, 0, i),
{
    if 0 <= i < s.len() {
        lemma_open_brackets_is_depth(s.take(i));
    }
}

/// White space parts a name from a type where it stands at depth 0.
pub proof fn lemma_name_end_is_top_space(s: Seq<char>, i: int)
    ensures
        is_name_end(s, i) <==> is_top_space(s, 0, i),
{
    if 0 <= i < s.len() {
        lemma_open_brackets_is_depth(s.take(i));
    }
}

/// The depth behind two texts is the depth behind the second, from the depth
/// behind the first on.
pub proof fn lemma_depth_concat(x: Seq<char>, y: Seq<char>, d: nat)
    ensures
        depth_after(x + y, d) == match depth_after(x, d) {
            None => None,
            Some(e) => depth_after(y, e),
        },
    decreases y.len(),
{
    if y.len() == 0 {
        assert(x + y == x);
    } else {
        lemma_depth_concat(x, y.drop_last(), d);
        assert((x + y).drop_last() == x + y.drop_last());
        assert((x + y).last() == y.last());
    }
}

/// Two texts hold a comma at depth 0 where the first holds one, or the
/// second from the depth behind the first on.
pub proof fn lemma_top_comma_concat(x: Seq<char>, y: Seq<char>, d: nat)
    ensures
        has_top_comma(x + y, d) <==> has_top_comma(x, d) || (depth_after(x, d) matches Some(e)
            && has_top_comma(y, e)),
{
    let xy = x + y;
    if has_top_comma(xy, d) {
        let i = choose|i: int| is_top_comma(xy, d, i);
        if i < x.len() {
            assert(xy.take(i) == x.take(i));
            assert(is_top_comma(x, d, i));
        } else {
            let j = i - x.len();
            assert(xy.take(i) == x + y.take(j));
            lemma_depth_concat(x, y.take(j), d);
            let e = depth_after(x, d).unwrap();
            assert(is_top_comma(y, e, j));
        }
    }
    if has_top_comma(x, d) {
        let i = choose|i: int| is_top_comma(x, d, i);
        assert(xy.take(i) == x.take(i));
        assert(is_top_comma(xy, d, i));
    }
    if depth_after(x, d) is Some && has_top_comma(y, depth_after(x, d).unwrap()) {
        let e = depth_after(x, d).unwrap();
        let j = choose|j: int| is_top_comma(y, e, j);
        assert(xy.take(x.len() + j) == x + y.take(j));
        lemma_depth_concat(x, y.take(j), d);
        assert(is_top_comma(xy, d, x.len() + j));
    }
}

/// Two texts hold white space at depth 0 where the first holds some, or the
/// second from the depth behind the first on.
pub proof fn lemma_top_space_concat(x: Seq<char>, y: Seq<char>, d: nat)
    ensures
        has_top_space(x + y, d) <==> has_top_space(x, d) || (depth_after(x, d) matches Some(e)
            && has_top_space(y, e)),
{
    let xy = x + y;
    if has_top_space(xy, d) {
        let i = choose|i: int| is_top_space(xy, d, i);
        if i < x.len() {
            assert(xy.take(i) == x.take(i));
            assert(is_top_space(x, d, i));
        } else {
            let j = i - x.len();
            assert(xy.take(i) == x + y.take(j));
            lemma_depth_concat(x, y.take(j), d);
            let e = depth_after(x, d).unwrap();
            assert(is_top_space(y, e, j));
        }
    }
    if has_top_space(x, d) {
        let i = choose|i: int| is_top_space(x, d, i);
        assert(xy.take(i) == x.take(i));
        assert(is_top_space(xy, d, i));
    }
    if depth_after(x, d) is Some && has_top_space(y, depth_after(x, d).unwrap()) {
        let e = depth_after(x, d).unwrap();
        let j = choose|j: int| is_top_space(y, e, j);
        assert(xy.take(x.len() + j) == x + y.take(j));
        lemma_depth_concat(x, y.take(j), d);
        assert(is_top_space(xy, d, x.len() + j));
    }
}

/// Texts that may stand for two texts may, one after the other, stand for
/// the two one after the other.
pub proof fn lemma_refines_concat(x: Seq<char>, xr: Seq<char>, y: Seq<char>, yr: Seq<char>)
    requires
        refines(x, xr),
        refines(y, yr),
    ensures
        refines(x + y, xr + yr),
{
    assert forall|d: nat| #[trigger] refines_at(x + y, xr + yr, d) by {
        lemma_depth_concat(x, y, d);
        lemma_depth_concat(xr, yr, d);
        lemma_top_comma_concat(x, y, d);
        lemma_top_comma_concat(xr, yr, d);
        lemma_top_space_concat(x, y, d);
        lemma_top_space_concat(xr, yr, d);
        assert(refines_at(x, xr, d));
        match depth_after(x, d) {
            Some(e) => {
                assert(refines_at(y, yr, e));
            },
            None => {},
        }
    }
}

/// Texts that may stand for three texts may, one after the other, stand
/// for the three one after the other.
pub proof fn lemma_refines_concat3(
    x: Seq<char>,
    xr: Seq<char>,
    y: Seq<char>,
    yr: Seq<char>,
    z: Seq<char>,
    zr: Seq<char>,
)
    requires
        refines(x, xr),
        refines(y, yr),
        refines(z, zr),
    ensures
        refines(x + y + z, xr + yr + zr),
{
    lemma_refines_concat(x, xr, y, yr);
    lemma_refines_concat(x + y, xr + yr, z, zr);
}

/// Every text may stand for itself.
pub proof fn lemma_refines_same(x: Seq<char>)
    ensures
        refines(x, x),
{
    assert forall|d: nat| #[trigger] refines_at(x, x, d) by {}
}

/// What may stand for a text that may stand for `x` may stand for `x`.
pub proof fn lemma_refines_chain(x: Seq<char>, y: Seq<char>, z: Seq<char>)
    requires
        refines(x, y),
        refines(y, z),
    ensures
        refines(x, z),
{
    assert forall|d: nat| #[trigger] refines_at(x, z, d) by {
        assert(refines_at(x, y, d));
        assert(refines_at(y, z, d));
    }
}

/// A text without bracket and comma leaves the depth as it is: every prefix
/// of it ends at the depth that it starts at.
pub proof fn lemma_plain_prefix(s: Seq<char>, d: nat, i: int)
    requires
        is_plain(s),
        0 <= i <= s.len(),
    ensures
        depth_after(s.take(i), d) == Some(d),
    decreases i,
{
    if i > 0 {
        lemma_plain_prefix(s, d, i - 1);
        assert(s.take(i).drop_last() == s.take(i - 1));
        assert(s.take(i).last() == s[i - 1]);
        assert(is_plain_char(s[i - 1]));
    }
}

/// A text without bracket and comma holds white space at depth 0 where it
/// holds white space and starts at depth 0.
pub proof fn lemma_plain_space(s: Seq<char>, d: nat)
    requires
        is_plain(s),
    ensures
        has_top_space(s, d) <==> d == 0 && has_whitespace(s),
{
    if has_top_space(s, d) {
        let i = choose|i: int| is_top_space(s, d, i);
        lemma_plain_prefix(s, d, i);
        assert(is_whitespace(s[i]));
    }
    if d == 0 && has_whitespace(s) {
        let i = choose|i: int| 0 <= i < s.len() && is_whitespace(#[trigger] s[i]);
        lemma_plain_prefix(s, d, i);
        assert(is_top_space(s, d, i));
    }
}

/// A text without bracket and comma leaves the depth as it is and holds no
/// comma at depth 0.
pub proof fn lemma_plain(s: Seq<char>, d: nat)
    requires
        is_plain(s),
    ensures
        depth_after(s, d) == Some(d),
        !has_top_comma(s, d),
    decreases s.len(),
{
    if s.len() > 0 {
        assert forall|i: int| 0 <= i < s.drop_last().len() implies is_plain_char(
            #[trigger] s.drop_last()[i],
        ) by {
            assert(s.drop_last()[i] == s[i]);
        }
        lemma_plain(s.drop_last(), d);
        assert(is_plain_char(s[s.len() - 1]));
    }
    if has_top_comma(s, d) {
        let i = choose|i: int| is_top_comma(s, d, i);
        assert(is_plain_char(s[i]));
    }
}

/// Of two texts without bracket and comma, one may stand for the other
/// where it brings no white space of its own.
pub proof fn lemma_refines_plain(x: Seq<char>, y: Seq<char>)
    requires
        is_plain(x),
        is_plain(y),
        has_whitespace(y) ==> has_whitespace(x),
    ensures
        refines(x, y),
{
    assert forall|d: nat| #[trigger] refines_at(x, y, d) by {
        lemma_plain(x, d);
        lemma_plain(y, d);
        lemma_plain_space(x, d);
        lemma_plain_space(y, d);
    }
}

/// White space is no bracket and no comma.
pub proof fn lemma_whitespace_is_plain(s: Seq<char>)
    requires
        forall|i: int| 0 <= i < s.len() ==> is_whitespace(#[trigger] s[i]),
    ensures
        is_plain(s),
{
    assert forall|i: int| 0 <= i < s.len() implies is_plain_char(#[trigger] s[i]) by {
        assert(is_whitespace(s[i]));
    }
}

/// The trimmed text may stand for the text.
pub proof fn lemma_refines_trim(x: Seq<char>)
    ensures
        refines(x, trim(x)),
{
    let (lo, hi) = lemma_trim(x);
    let a = x.take(lo);
    let m = x.subrange(lo, hi);
    let b = x.skip(hi);
    let nothing = Seq::<char>::empty();
    assert(x == a + m + b);
    assert(m == nothing + m + nothing);
    assert forall|i: int| 0 <= i < a.len() implies is_whitespace(#[trigger] a[i]) by {
        assert(a[i] == x[i]);
    }
    assert forall|i: int| 0 <= i < b.len() implies is_whitespace(#[trigger] b[i]) by {
        assert(b[i] == x[hi + i]);
    }
    lemma_whitespace_is_plain(a);
    lemma_whitespace_is_plain(b);
    lemma_refines_plain(a, nothing);
    lemma_refines_plain(b, nothing);
    lemma_refines_same(m);
    lemma_refines_concat3(a, nothing, m, m, b, nothing);
}

/// What may stand for a field is a field, and what may stand for a text of
/// which no comma ends a field is such a text.
pub proof fn lemma_refines_field(x: Seq<char>, y: Seq<char>)
    requires
        refines(x, y),
    ensures
        is_balanced(x) ==> is_balanced(y),
        ends_no_field(x) ==> ends_no_field(y),
        is_field(x) ==> is_field(y),
        parts_no_name(x) ==> parts_no_name(y),
{
    assert(refines_at(x, y, 0));
    lemma_open_brackets_is_depth(x);
    lemma_open_brackets_is_depth(y);
}

/// A comma may go: nothing may stand for it.
pub proof fn lemma_refines_comma_dropped()
    ensures
        refines(seq![','], Seq::<char>::empty()),
{
    let comma = seq![','];
    let nothing = Seq::<char>::empty();
    assert forall|d: nat| #[trigger] refines_at(comma, nothing, d) by {
        assert(comma.drop_last() == nothing);
        assert(depth_after(comma.drop_last(), d) == Some(d));
        if has_top_comma(nothing, d) {
            let i = choose|i: int| is_top_comma(nothing, d, i);
        }
        if has_top_space(nothing, d) {
            let i = choose|i: int| is_top_space(nothing, d, i);
        }
    }
}

/// The join of two or more texts is the first, a comma, and the join of the
/// others.
pub proof fn lemma_join_front(texts: Seq<Seq<char>>)
    requires
        texts.len() >= 2,
    ensures
        join_fields(texts) == texts[0] + seq![','] + join_fields(texts.skip(1)),
    decreases texts.len(),
{
    let init = texts.drop_last();
    let rest = texts.skip(1);
    let c = seq![','];
    assert(join_fields(texts) == join_fields(init) + c + texts.last());
    if texts.len() == 2 {
        assert(init.len() == 1);
        assert(rest.len() == 1);
        assert(init[0] == texts[0]);
        assert(rest[0] == texts[1]);
        assert(join_fields(init) == texts[0]);
        assert(join_fields(rest) == texts[1]);
        assert(texts.last() == texts[1]);
    } else {
        lemma_join_front(init);
        assert(init.skip(1) == rest.drop_last());
        assert(init[0] == texts[0]);
        assert(rest.last() == texts.last());
        let a = texts[0];
        let m = join_fields(rest.drop_last());
        let z = texts.last();
        assert(join_fields(init) == a + c + m);
        assert(rest.len() >= 2);
        assert(join_fields(rest) == m + c + z);
        assert((a + c + m) + c + z == a + c + (m + c + z));
    }
}

/// The join of a text and others is the text alone where there are no
/// others, and else the text, a comma, and the join of the others.
pub proof fn lemma_join_prepend(first: Seq<char>, others: Seq<Seq<char>>)
    ensures
        join_fields(seq![first] + others) == if others.len() == 0 {
            first
        } else {
            first + seq![','] + join_fields(others)
        },
{
    let all = seq![first] + others;
    if others.len() == 0 {
        assert(all.len() == 1);
        assert(all[0] == first);
    } else {
        lemma_join_front(all);
        assert(all.skip(1) == others);
        assert(all[0] == first);
    }
}

/// A text that is not empty has a field.
pub proof fn lemma_split_fields_some(x: Seq<char>)
    requires
        x.len() > 0,
    ensures
        split_fields(x).len() > 0,
{
    lemma_first_field_end(x, 0);
}

/// The fields of a text nest as fields must: each one but the last is a
/// field that a comma can follow, and no comma of the last ends a field.
pub proof fn lemma_split_fields_nest(x: Seq<char>)
    ensures
        forall|k: int| 0 <= k < split_fields(x).len() - 1 ==> is_field(#[trigger] split_fields(x)[k]),
        split_fields(x).len() > 0 ==> ends_no_field(split_fields(x).last()),
    decreases x.len(),
{
    let fields = split_fields(x);
    if x.len() > 0 {
        lemma_first_field_end(x, 0);
        match first_field_end(x, 0) {
            Some(i) => {
                let p = x.take(i);
                let rest = x.skip(i + 1);
                let others = split_fields(rest);
                lemma_split_fields_nest(rest);
                if has_top_comma(p, 0) {
                    let j = choose|j: int| is_top_comma(p, 0, j);
                    assert(p.take(j) == x.take(j));
                    lemma_field_end_is_top_comma(x, j);
                    assert(is_top_comma(x, 0, j));
                }
                lemma_refines_trim(p);
                lemma_refines_field(p, trim(p));
                assert(fields == seq![trim(p)] + others);
                assert forall|k: int| 0 <= k < fields.len() - 1 implies is_field(
                    #[trigger] fields[k],
                ) by {
                    if k > 0 {
                        assert(fields[k] == others[k - 1]);
                    }
                }
                if others.len() > 0 {
                    assert(fields.last() == others.last());
                }
            },
            None => {
                if has_top_comma(x, 0) {
                    let j = choose|j: int| is_top_comma(x, 0, j);
                    lemma_field_end_is_top_comma(x, j);
                }
                lemma_refines_trim(x);
                lemma_refines_field(x, trim(x));
            },
        }
    }
}

/// The fields of a text are without white space around them.
pub proof fn lemma_split_fields_trimmed(x: Seq<char>)
    ensures
        forall|k: int| 0 <= k < split_fields(x).len() ==> is_trimmed(
            #[trigger] split_fields(x)[k],
        ),
    decreases x.len(),
{
    let fields = split_fields(x);
    if x.len() > 0 {
        lemma_first_field_end(x, 0);
        match first_field_end(x, 0) {
            Some(i) => {
                let rest = x.skip(i + 1);
                let others = split_fields(rest);
                lemma_split_fields_trimmed(rest);
                lemma_trim(x.take(i));
                assert forall|k: int| 0 <= k < fields.len() implies is_trimmed(
                    #[trigger] fields[k],
                ) by {
                    if k > 0 {
                        assert(fields[k] == others[k - 1]);
                    }
                }
            },
            None => {
                lemma_trim(x);
            },
        }
    }
}

/// The join of its fields may stand for a text.
pub proof fn lemma_refines_split(x: Seq<char>)
    ensures
        refines(x, join_fields(split_fields(x))),
    decreases x.len(),
{
    let fields = split_fields(x);
    if x.len() == 0 {
        lemma_refines_same(x);
        assert(join_fields(fields) == x);
    } else {
        lemma_first_field_end(x, 0);
        match first_field_end(x, 0) {
            Some(i) => {
                let p = x.take(i);
                let comma = seq![','];
                let rest = x.skip(i + 1);
                let others = split_fields(rest);
                assert(x == p + comma + rest);
                lemma_refines_split(rest);
                lemma_refines_trim(p);
                lemma_join_prepend(trim(p), others);
                if others.len() == 0 {
                    if rest.len() > 0 {
                        lemma_split_fields_some(rest);
                    }
                    assert(rest == Seq::<char>::empty());
                    let nothing = Seq::<char>::empty();
                    lemma_refines_comma_dropped();
                    lemma_refines_same(nothing);
                    lemma_refines_concat3(p, trim(p), comma, nothing, rest, nothing);
                    assert(trim(p) + nothing + nothing == trim(p));
                } else {
                    lemma_refines_same(comma);
                    lemma_refines_concat3(p, trim(p), comma, comma, rest, join_fields(others));
                }
            },
            None => {
                assert(fields.len() == 1);
                assert(join_fields(fields) == trim(x));
                lemma_refines_trim(x);
            },
        }
    }
}

/// Where each text of a list may stand for the text at its place in another
/// list, the join of the one may stand for the join of the other.
pub proof fn lemma_refines_join(xs: Seq<Seq<char>>, ys: Seq<Seq<char>>)
    requires
        xs.len() == ys.len(),
        forall|k: int| 0 <= k < xs.len() ==> refines(#[trigger] xs[k], ys[k]),
    ensures
        refines(join_fields(xs), join_fields(ys)),
    decreases xs.len(),
{
    if xs.len() == 0 {
        lemma_refines_same(Seq::<char>::empty());
    } else if xs.len() == 1 {
        assert(refines(xs[0], ys[0]));
    } else {
        let comma = seq![','];
        assert forall|k: int| 0 <= k < xs.drop_last().len() implies refines(
            #[trigger] xs.drop_last()[k],
            ys.drop_last()[k],
        ) by {
            assert(refines(xs[k], ys[k]));
        }
        lemma_refines_join(xs.drop_last(), ys.drop_last());
        lemma_refines_same(comma);
        assert(refines(xs[xs.len() - 1], ys[xs.len() - 1]));
        lemma_refines_concat3(
            join_fields(xs.drop_last()),
            join_fields(ys.drop_last()),
            comma,
            comma,
            xs.last(),
            ys.last(),
        );
    }
}

/// What may stand for a text may stand for it inside brackets.
pub proof fn lemma_refines_is_inside(x: Seq<char>, y: Seq<char>)
    requires
        refines(x, y),
    ensures
        refines_inside(x, y),
{
}

/// The depth behind one character.
pub proof fn lemma_depth_one(c: char, d: nat)
    ensures
        depth_after(seq![c], d) == step_depth(d, c),
{
    let one = seq![c];
    assert(one.drop_last() == Seq::<char>::empty());
    assert(one.last() == c);
    assert(depth_after(one.drop_last(), d) == Some(d));
}

/// A keyword with arguments may stand for the keyword with other arguments,
/// where the arguments of the one may stand for those of the other inside
/// brackets.
pub proof fn lemma_refines_call(head: Seq<char>, x: Seq<char>, y: Seq<char>)
    requires
        refines_inside(x, y),
    ensures
        refines(head + seq!['('] + x + seq![')'], head + seq!['('] + y + seq![')']),
{
    let open = head + seq!['('];
    let close = seq![')'];
    let a = open + x + close;
    let b = open + y + close;
    assert forall|d: nat| #[trigger] refines_at(a, b, d) by {
        lemma_depth_concat(head, seq!['('], d);
        match depth_after(head, d) {
            Some(e) => {
                lemma_depth_one('(', e);
            },
            None => {},
        }
        lemma_top_comma_concat(head, seq!['('], d);
        lemma_top_space_concat(head, seq!['('], d);
        lemma_top_space_concat(open, x, d);
        lemma_top_space_concat(open, y, d);
        lemma_top_space_concat(open + x, close, d);
        lemma_top_space_concat(open + y, close, d);
        lemma_depth_concat(open, x, d);
        lemma_depth_concat(open, y, d);
        lemma_top_comma_concat(open, x, d);
        lemma_top_comma_concat(open, y, d);
        lemma_depth_concat(open + x, close, d);
        lemma_depth_concat(open + y, close, d);
        lemma_top_comma_concat(open + x, close, d);
        lemma_top_comma_concat(open + y, close, d);
        match depth_after(head, d) {
            Some(e) => {
                assert(depth_after(open, d) == Some(e + 1));
                assert(refines_at(x, y, e + 1));
            },
            None => {},
        }
    }
}

/// A text between quotes may stand for the text.
pub proof fn lemma_refines_quoted(x: Seq<char>)
    ensures
        refines(x, seq!['\''] + x + seq!['\'']),
{
    let q = seq!['\''];
    let nothing = Seq::<char>::empty();
    assert(is_plain(q)) by {
        assert forall|i: int| 0 <= i < q.len() implies is_plain_char(#[trigger] q[i]) by {}
    }
    assert(is_plain(nothing));
    if has_whitespace(q) {
        let i = choose|i: int| 0 <= i < q.len() && is_whitespace(#[trigger] q[i]);
    }
    lemma_refines_plain(nothing, q);
    lemma_refines_same(x);
    lemma_refines_concat3(nothing, q, x, x, nothing, q);
    assert(nothing + x + nothing == x);
}

/// Nothing may stand for brackets around white space.
pub proof fn lemma_refines_empty_call(inner: Seq<char>)
    requires
        forall|i: int| 0 <= i < inner.len() ==> is_whitespace(#[trigger] inner[i]),
    ensures
        refines(seq!['('] + inner + seq![')'], Seq::<char>::empty()),
{
    let x = seq!['('] + inner + seq![')'];
    let nothing = Seq::<char>::empty();
    lemma_whitespace_is_plain(inner);
    assert forall|d: nat| #[trigger] refines_at(x, nothing, d) by {
        lemma_depth_one('(', d);
        lemma_plain(inner, d + 1);
        lemma_depth_concat(seq!['('], inner, d);
        lemma_depth_concat(seq!['('] + inner, seq![')'], d);
        lemma_depth_one(')', d + 1);
        if has_top_comma(nothing, d) {
            let i = choose|i: int| is_top_comma(nothing, d, i);
        }
        if has_top_space(nothing, d) {
            let i = choose|i: int| is_top_space(nothing, d, i);
        }
    }
}

} // verus!
