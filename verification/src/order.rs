//! Ordering: texts as the database orders them, and identities.

use vstd::prelude::*;

use crate::codec;
use crate::codec::Uuid;
use crate::text;

verus! {

/// Whether `a` comes strictly before `b` in the order of code points.
pub open spec fn text_before(a: Seq<char>, b: Seq<char>) -> bool
    decreases a.len(),
{
    if b.len() == 0 {
        false
    } else if a.len() == 0 {
        true
    } else if a[0] == b[0] {
        text_before(a.drop_first(), b.drop_first())
    } else {
        a[0] < b[0]
    }
}

/// Whether `a` comes strictly before `b` in the order of code points.
pub fn comes_before(a: &str, b: &str) -> (r: bool)
    ensures
        r == text_before(a@, b@),
{
    let x = text::chars_of(a);
    let y = text::chars_of(b);
    let mut i: usize = 0;
    proof {
        assert(x@.skip(0) =~= x@);
        assert(y@.skip(0) =~= y@);
    }
    while i < x.len() && i < y.len()
        invariant
            i <= x.len(),
            i <= y.len(),
            x@ == a@,
            y@ == b@,
            text_before(a@, b@) == text_before(x@.skip(i as int), y@.skip(i as int)),
        decreases x.len() - i,
    {
        proof {
            assert(x@.skip(i as int).drop_first() =~= x@.skip(i + 1));
            assert(y@.skip(i as int).drop_first() =~= y@.skip(i + 1));
        }
        if x[i] != y[i] {
            return x[i] < y[i];
        }
        i = i + 1;
    }
    i < y.len()
}

/// The order of texts is total and strict.
pub proof fn text_order_is_total(a: Seq<char>, b: Seq<char>)
    ensures
        !text_before(a, a),
        text_before(a, b) ==> !text_before(b, a),
        !text_before(a, b) && !text_before(b, a) ==> a == b,
    decreases a.len(),
{
    if a.len() > 0 {
        text_order_is_total(a.drop_first(), a.drop_first());
        if b.len() > 0 {
            text_order_is_total(a.drop_first(), b.drop_first());
            if a[0] == b[0] && a.drop_first() == b.drop_first() {
                assert(a =~= seq![a[0]] + a.drop_first());
                assert(b =~= seq![b[0]] + b.drop_first());
            }
        }
    } else {
        assert(b.len() == 0 ==> a =~= b);
    }
}

/// The order of texts is transitive.
pub proof fn text_order_is_transitive(a: Seq<char>, b: Seq<char>, c: Seq<char>)
    requires
        text_before(a, b),
        text_before(b, c),
    ensures
        text_before(a, c),
    decreases a.len(),
{
    if a.len() > 0 && b.len() > 0 && c.len() > 0 && a[0] == b[0] && b[0] == c[0] {
        text_order_is_transitive(a.drop_first(), b.drop_first(), c.drop_first());
    }
}

/// A row that goes by a text.
pub trait TextKeyed: Sized {
    /// The text.
    spec fn text_key(self) -> Seq<char>;

    /// The text.
    fn key_text(&self) -> (r: &str)
        ensures
            r@ == self.text_key(),
    ;
}

/// The first of `n` rows with a text.
pub open spec fn first_named<T: TextKeyed>(rows: Seq<T>, name: Seq<char>, n: nat) -> Option<nat>
    decreases n,
{
    if n == 0 || n > rows.len() {
        None
    } else {
        match first_named(rows, name, (n - 1) as nat) {
            Some(i) => Some(i),
            None => if rows[n - 1].text_key() == name {
                Some((n - 1) as nat)
            } else {
                None
            },
        }
    }
}

proof fn first_named_stays<T: TextKeyed>(rows: Seq<T>, name: Seq<char>, a: nat, b: nat)
    requires
        a <= b <= rows.len(),
        first_named(rows, name, a) is Some,
    ensures
        first_named(rows, name, b) == first_named(rows, name, a),
    decreases b,
{
    if a < b {
        first_named_stays(rows, name, a, (b - 1) as nat);
    }
}

/// A row with a text that no earlier row has is the first with it.
pub proof fn first_is_named<T: TextKeyed>(rows: Seq<T>, name: Seq<char>, i: int)
    requires
        0 <= i < rows.len(),
        rows[i].text_key() == name,
        forall|j: int| 0 <= j < i ==> (#[trigger] rows[j]).text_key() != name,
    ensures
        first_named(rows, name, rows.len()) == Some(i as nat),
{
    none_named(rows, name, i as nat);
    first_named_stays(rows, name, (i + 1) as nat, rows.len());
}

/// Where none of `n` rows has a text, there is no first.
pub proof fn none_named<T: TextKeyed>(rows: Seq<T>, name: Seq<char>, n: nat)
    requires
        n <= rows.len(),
        forall|j: int| 0 <= j < n ==> (#[trigger] rows[j]).text_key() != name,
    ensures
        first_named(rows, name, n) is None,
    decreases n,
{
    if n > 0 {
        none_named(rows, name, (n - 1) as nat);
    }
}

/// Finds the first row with a text.
pub fn find_named<T: TextKeyed>(rows: &Vec<T>, name: &str) -> (r: Option<usize>)
    ensures
        match r {
            Some(i) => i < rows@.len() && first_named(rows@, name@, rows@.len()) == Some(i as nat),
            None => first_named(rows@, name@, rows@.len()) is None,
        },
{
    let mut i: usize = 0;
    while i < rows.len()
        invariant
            i <= rows.len(),
            first_named(rows@, name@, i as nat) is None,
        decreases rows.len() - i,
    {
        if text::same_text(rows[i].key_text(), name) {
            proof {
                first_named_stays(rows@, name@, (i + 1) as nat, rows@.len());
            }
            return Some(i);
        }
        i = i + 1;
    }
    None
}

/// A sorted list with one more row, behind those with an equal text.
pub open spec fn inserted<T: TextKeyed>(s: Seq<T>, x: T) -> Seq<T>
    decreases s.len(),
{
    if s.len() > 0 && text_before(x.text_key(), s.last().text_key()) {
        inserted(s.drop_last(), x).push(s.last())
    } else {
        s.push(x)
    }
}

/// The rows in the order of their texts.
pub open spec fn sorted_of<T: TextKeyed>(s: Seq<T>) -> Seq<T>
    decreases s.len(),
{
    if s.len() == 0 {
        s
    } else {
        inserted(sorted_of(s.drop_last()), s.last())
    }
}

fn insert_sorted<'a, T: TextKeyed>(v: &mut Vec<&'a T>, x: &'a T)
    ensures
        final(v)@.unref() == inserted(old(v)@.unref(), *x),
{
    let ghost s = v@.unref();
    let mut at: usize = v.len();
    proof {
        assert(s.take(at as int) =~= s);
        assert(s.skip(at as int) =~= Seq::empty());
        assert(inserted(s, *x) =~= inserted(s.take(at as int), *x) + s.skip(at as int));
    }
    while at > 0 && comes_before(x.key_text(), v[at - 1].key_text())
        invariant
            at <= v.len(),
            v@.unref() == s,
            inserted(s, *x) == inserted(s.take(at as int), *x) + s.skip(at as int),
        decreases at,
    {
        proof {
            let h = s.take(at as int);
            assert(h.last() == s[at - 1]);
            assert(h.drop_last() =~= s.take(at - 1));
            assert(inserted(s.take(at - 1), *x).push(s[at - 1]) + s.skip(at as int) =~= inserted(
                s.take(at - 1),
                *x,
            ) + s.skip(at - 1));
        }
        at = at - 1;
    }
    proof {
        assert(at > 0 ==> s.take(at as int).last() == s[at - 1]);
        assert(s.insert(at as int, *x) =~= s.take(at as int).push(*x) + s.skip(at as int));
    }
    let ghost before = v@;
    v.insert(at, x);
    proof {
        assert(v@.unref() =~= before.unref().insert(at as int, *x));
    }
}

/// The rows in the order of their texts.
pub fn sort_by_text<'a, T: TextKeyed>(rows: &'a Vec<T>) -> (r: Vec<&'a T>)
    ensures
        r@.unref() == sorted_of(rows@),
{
    let mut out: Vec<&'a T> = Vec::new();
    let mut i: usize = 0;
    proof {
        assert(rows@.take(0) =~= Seq::empty());
        assert(out@.unref() =~= Seq::empty());
    }
    while i < rows.len()
        invariant
            i <= rows.len(),
            out@.unref() == sorted_of(rows@.take(i as int)),
        decreases rows.len() - i,
    {
        proof {
            assert(rows@.take(i + 1).drop_last() =~= rows@.take(i as int));
            assert(rows@.take(i + 1).last() == rows@[i as int]);
        }
        insert_sorted(&mut out, &rows[i]);
        i = i + 1;
    }
    proof {
        assert(rows@.take(rows@.len() as int) =~= rows@);
    }
    out
}

/// Whether rows are in the order of their texts.
pub open spec fn in_text_order<T: TextKeyed>(s: Seq<T>) -> bool {
    forall|i: int, j: int|
        0 <= i < j < s.len() ==> !text_before(
            (#[trigger] s[j]).text_key(),
            (#[trigger] s[i]).text_key(),
        )
}

proof fn insertion_keeps_order<T: TextKeyed>(s: Seq<T>, x: T)
    requires
        in_text_order(s),
    ensures
        in_text_order(inserted(s, x)),
        inserted(s, x).len() == s.len() + 1,
        inserted(s, x).to_multiset() == s.to_multiset().insert(x),
        forall|i: int|
            0 <= i < inserted(s, x).len() ==> s.contains(#[trigger] inserted(s, x)[i]) || inserted(
                s,
                x,
            )[i] == x,
    decreases s.len(),
{
    let r = inserted(s, x);
    if s.len() > 0 && text_before(x.text_key(), s.last().text_key()) {
        let front = s.drop_last();
        assert(in_text_order(front)) by {
            assert forall|i: int, j: int| 0 <= i < j < front.len() implies !text_before(
                (#[trigger] front[j]).text_key(),
                (#[trigger] front[i]).text_key(),
            ) by {
                assert(s[i] == front[i] && s[j] == front[j]);
            }
        }
        insertion_keeps_order(front, x);
        let g = inserted(front, x);
        assert forall|i: int, j: int| 0 <= i < j < r.len() implies !text_before(
            (#[trigger] r[j]).text_key(),
            (#[trigger] r[i]).text_key(),
        ) by {
            if j < g.len() {
                assert(r[i] == g[i] && r[j] == g[j]);
            } else {
                assert(r[j] == s.last() && r[i] == g[i]);
                if g[i] == x {
                    text_order_is_total(x.text_key(), s.last().text_key());
                } else {
                    assert(front.contains(g[i]));
                    let k = choose|k: int| 0 <= k < front.len() && front[k] == g[i];
                    assert(s[k] == g[i]);
                    assert(!text_before(s[s.len() - 1].text_key(), s[k].text_key()));
                }
            }
        }
        assert forall|i: int| 0 <= i < r.len() implies s.contains(#[trigger] r[i]) || r[i] == x by {
            if i < g.len() {
                assert(r[i] == g[i]);
                if g[i] != x {
                    let k = choose|k: int| 0 <= k < front.len() && front[k] == g[i];
                    assert(s[k] == g[i]);
                }
            } else {
                assert(s[s.len() - 1] == r[i]);
            }
        }
        assert(s =~= front.push(s.last()));
        broadcast use vstd::seq_lib::group_to_multiset_ensures;

        assert(r.to_multiset() =~= s.to_multiset().insert(x));
    } else {
        broadcast use vstd::seq_lib::group_to_multiset_ensures;

        assert forall|i: int, j: int| 0 <= i < j < r.len() implies !text_before(
            (#[trigger] r[j]).text_key(),
            (#[trigger] r[i]).text_key(),
        ) by {
            if j < s.len() {
                assert(r[i] == s[i] && r[j] == s[j]);
            } else {
                assert(r[j] == x && r[i] == s[i]);
                let last = s.last().text_key();
                if text_before(x.text_key(), s[i].text_key()) {
                    text_order_is_total(s[i].text_key(), last);
                    if i < s.len() - 1 {
                        assert(!text_before(s[s.len() - 1].text_key(), s[i].text_key()));
                    }
                    if s[i].text_key() != last {
                        text_order_is_transitive(x.text_key(), s[i].text_key(), last);
                    }
                }
            }
        }
        assert forall|i: int| 0 <= i < r.len() implies s.contains(#[trigger] r[i]) || r[i] == x by {
            if i < s.len() {
                assert(s[i] == r[i]);
            }
        }
        assert(r.to_multiset() =~= s.to_multiset().insert(x));
    }
}

/// Sorting puts the rows in order, and keeps each of them.
pub proof fn sorting_orders_and_keeps<T: TextKeyed>(s: Seq<T>)
    ensures
        in_text_order(sorted_of(s)),
        sorted_of(s).to_multiset() == s.to_multiset(),
        sorted_of(s).len() == s.len(),
    decreases s.len(),
{
    if s.len() > 0 {
        sorting_orders_and_keeps(s.drop_last());
        insertion_keeps_order(sorted_of(s.drop_last()), s.last());
        broadcast use vstd::seq_lib::group_to_multiset_ensures;

        assert(s =~= s.drop_last().push(s.last()));
    }
}

/// Sorting neither adds nor drops a row.
pub proof fn sorting_keeps_members<T: TextKeyed>(s: Seq<T>, x: T)
    ensures
        sorted_of(s).contains(x) <==> s.contains(x),
{
    sorting_orders_and_keeps(s);
    broadcast use vstd::seq_lib::group_to_multiset_ensures;

    assert(sorted_of(s).contains(x) <==> sorted_of(s).to_multiset().count(x) > 0);
    assert(s.contains(x) <==> s.to_multiset().count(x) > 0);
}

/// Rows that are all different still are when sorted.
pub proof fn sorting_keeps_distinct<T: TextKeyed>(s: Seq<T>)
    requires
        s.no_duplicates(),
    ensures
        sorted_of(s).no_duplicates(),
{
    sorting_orders_and_keeps(s);
    s.lemma_multiset_has_no_duplicates();
    sorted_of(s).lemma_multiset_has_no_duplicates_conv();
}

/// Rows whose texts are all different come out strictly ascending.
pub proof fn sorting_is_strict<T: TextKeyed>(s: Seq<T>)
    requires
        forall|i: int, j: int|
            0 <= i < j < s.len() ==> (#[trigger] s[i]).text_key() != (#[trigger] s[j]).text_key(),
    ensures
        forall|i: int, j: int|
            0 <= i < j < s.len() ==> text_before(
                (#[trigger] sorted_of(s)[i]).text_key(),
                (#[trigger] sorted_of(s)[j]).text_key(),
            ),
{
    let t = sorted_of(s);
    sorting_orders_and_keeps(s);
    sorting_keeps_distinct(s);
    assert forall|i: int, j: int| 0 <= i < j < s.len() implies text_before(
        (#[trigger] t[i]).text_key(),
        (#[trigger] t[j]).text_key(),
    ) by {
        sorting_keeps_members(s, t[i]);
        sorting_keeps_members(s, t[j]);
        assert(t.contains(t[i]) && t.contains(t[j]));
        let a = choose|a: int| 0 <= a < s.len() && s[a] == t[i];
        let b = choose|b: int| 0 <= b < s.len() && s[b] == t[j];
        assert(s[a].text_key() != s[b].text_key());
        text_order_is_total(t[i].text_key(), t[j].text_key());
    }
}

// ------------------------------------------------------------------- identities

proof fn text_order_splits(a: Seq<char>, b: Seq<char>, x: Seq<char>, y: Seq<char>)
    requires
        a.len() == b.len(),
    ensures
        text_before(a + x, b + y) <==> text_before(a, b) || (a == b && text_before(x, y)),
    decreases a.len(),
{
    if a.len() == 0 {
        assert(a + x =~= x);
        assert(b + y =~= y);
        assert(a =~= b);
    } else {
        assert((a + x).drop_first() =~= a.drop_first() + x);
        assert((b + y).drop_first() =~= b.drop_first() + y);
        text_order_splits(a.drop_first(), b.drop_first(), x, y);
        if a[0] == b[0] && a.drop_first() == b.drop_first() {
            assert(a =~= seq![a[0]] + a.drop_first());
            assert(b =~= seq![b[0]] + b.drop_first());
        }
    }
}

spec fn sixteens(n: nat) -> nat
    decreases n,
{
    if n == 0 {
        1
    } else {
        16 * sixteens((n - 1) as nat)
    }
}

proof fn digits_keep_order(a: nat, b: nat, n: nat)
    requires
        a < sixteens(n),
        b < sixteens(n),
    ensures
        codec::low_hex(a, n).len() == n,
        codec::low_hex(b, n).len() == n,
        codec::low_hex(a, n) == codec::low_hex(b, n) <==> a == b,
        text_before(codec::low_hex(a, n), codec::low_hex(b, n)) <==> a < b,
    decreases n,
{
    if n > 0 {
        let m = (n - 1) as nat;
        digits_keep_order(a / 16, b / 16, m);
        let p = codec::low_hex(a / 16, m);
        let q = codec::low_hex(b / 16, m);
        let x = seq![text::hex_digit(a as int % 16)];
        let y = seq![text::hex_digit(b as int % 16)];
        assert(codec::low_hex(a, n) =~= p + x);
        assert(codec::low_hex(b, n) =~= q + y);
        assert((p + x).take(m as int) =~= p);
        assert((q + y).take(m as int) =~= q);
        assert((p + x)[m as int] == x[0]);
        assert((q + y)[m as int] == y[0]);
        text_order_splits(p, q, x, y);
        assert(text_before(x, y) <==> x[0] < y[0]) by {
            reveal_with_fuel(text_before, 2);
        }
    }
}

proof fn hyphen_keeps_order(
    p: Seq<char>,
    q: Seq<char>,
    x: Seq<char>,
    y: Seq<char>,
    u: Seq<char>,
    v: Seq<char>,
)
    requires
        p.len() == q.len(),
        text_before(x, y) <==> text_before(u, v),
    ensures
        text_before(p + (seq!['-'] + x), q + (seq!['-'] + y)) <==> text_before(p + u, q + v),
{
    text_order_splits(p, q, seq!['-'] + x, seq!['-'] + y);
    text_order_splits(p, q, u, v);
    text_order_splits(seq!['-'], seq!['-'], x, y);
    text_order_is_total(seq!['-'], seq!['-']);
}

/// Identities are ordered as their texts are.
pub proof fn identity_texts_keep_order(a: Uuid, b: Uuid)
    ensures
        text_before(codec::uuid_text(a), codec::uuid_text(b)) <==> a < b,
{
    assert(sixteens(32) == 0x1_0000_0000_0000_0000_0000_0000_0000_0000) by {
        reveal_with_fuel(sixteens, 33);
    }
    digits_keep_order(a as nat, b as nat, 32);
    let g = codec::low_hex(a as nat, 32);
    let h = codec::low_hex(b as nat, 32);
    let g5 = g.subrange(20, 32);
    let h5 = h.subrange(20, 32);
    let g4 = g.subrange(16, 20);
    let h4 = h.subrange(16, 20);
    let g3 = g.subrange(12, 16);
    let h3 = h.subrange(12, 16);
    let g2 = g.subrange(8, 12);
    let h2 = h.subrange(8, 12);
    let g1 = g.subrange(0, 8);
    let h1 = h.subrange(0, 8);
    let dash = seq!['-'];
    let s4 = g4 + (dash + g5);
    let t4 = h4 + (dash + h5);
    let s3 = g3 + (dash + s4);
    let t3 = h3 + (dash + t4);
    let s2 = g2 + (dash + s3);
    let t2 = h2 + (dash + t3);
    let s1 = g1 + (dash + s2);
    let t1 = h1 + (dash + t2);
    hyphen_keeps_order(g4, h4, g5, h5, g5, h5);
    hyphen_keeps_order(g3, h3, s4, t4, g4 + g5, h4 + h5);
    hyphen_keeps_order(g2, h2, s3, t3, g3 + (g4 + g5), h3 + (h4 + h5));
    hyphen_keeps_order(g1, h1, s2, t2, g2 + (g3 + (g4 + g5)), h2 + (h3 + (h4 + h5)));
    assert(g1 + (g2 + (g3 + (g4 + g5))) =~= g);
    assert(h1 + (h2 + (h3 + (h4 + h5))) =~= h);
    assert(codec::uuid_text(a) =~= s1);
    assert(codec::uuid_text(b) =~= t1);
}

/// Whether identities ascend strictly.
pub open spec fn ascending(s: Seq<Uuid>) -> bool {
    forall|i: int, j: int| 0 <= i < j < s.len() ==> #[trigger] s[i] < #[trigger] s[j]
}

/// One more of a list's members has been seen.
pub proof fn one_more(s: Seq<Uuid>, i: int)
    requires
        0 <= i < s.len(),
    ensures
        forall|x: Uuid| #[trigger] s.take(i + 1).contains(x) <==> s.take(i).contains(x) || x
            == s[i],
{
    let less = s.take(i);
    let more = s.take(i + 1);
    assert(more =~= less.push(s[i]));
    assert forall|x: Uuid| #[trigger] more.contains(x) <==> less.contains(x) || x == s[i] by {
        if less.contains(x) {
            let j = choose|j: int| 0 <= j < less.len() && less[j] == x;
            assert(more[j] == x);
        }
        if x == s[i] {
            assert(more[i] == x);
        }
        if more.contains(x) {
            let j = choose|j: int| 0 <= j < more.len() && more[j] == x;
            if j < i {
                assert(less[j] == x);
            }
        }
    }
}

/// Adds an identity to an ascending list, unless it is there.
pub fn insert_ascending(v: &mut Vec<Uuid>, x: Uuid)
    requires
        ascending(old(v)@),
    ensures
        ascending(final(v)@),
        forall|u: Uuid| #[trigger] final(v)@.contains(u) <==> old(v)@.contains(u) || u == x,
{
    let ghost s = v@;
    let mut at: usize = 0;
    while at < v.len() && v[at] < x
        invariant
            at <= v.len(),
            v@ == s,
            forall|k: int| 0 <= k < at ==> #[trigger] s[k] < x,
        decreases v.len() - at,
    {
        at = at + 1;
    }
    if at < v.len() && v[at] == x {
        assert(s[at as int] == x);
        return ;
    }
    v.insert(at, x);
    proof {
        let r = v@;
        assert forall|i: int, j: int| 0 <= i < j < r.len() implies #[trigger] r[i] < #[trigger] r[j] by {
            if at < s.len() {
                assert(s[at as int] > x);
            }
        }
        assert forall|u: Uuid| #[trigger] r.contains(u) <==> s.contains(u) || u == x by {
            if s.contains(u) {
                let k = choose|k: int| 0 <= k < s.len() && s[k] == u;
                if k < at {
                    assert(r[k] == u);
                } else {
                    assert(r[k + 1] == u);
                }
            }
            if u == x {
                assert(r[at as int] == x);
            }
            if r.contains(u) && u != x {
                let k = choose|k: int| 0 <= k < r.len() && r[k] == u;
                if k < at {
                    assert(s[k] == u);
                } else {
                    assert(s[k - 1] == u);
                }
            }
        }
    }
}

// ------------------------------------------------------------------------ texts

/// Whether texts ascend strictly in the order of code points.
pub open spec fn texts_ascend(s: Seq<Seq<char>>) -> bool {
    forall|i: int, j: int|
        0 <= i < j < s.len() ==> text_before(#[trigger] s[i], #[trigger] s[j])
}

/// Adds a text to an ascending list, unless it is there.
pub fn insert_text(v: &mut Vec<String>, x: &str)
    requires
        texts_ascend(old(v).deep_view()),
    ensures
        texts_ascend(final(v).deep_view()),
        forall|t: Seq<char>| #[trigger]
            final(v).deep_view().contains(t) <==> old(v).deep_view().contains(t) || t == x@,
{
    let ghost s = v.deep_view();
    let mut at: usize = 0;
    while at < v.len() && comes_before(v[at].as_str(), x)
        invariant
            at <= v.len(),
            v.deep_view() == s,
            forall|k: int| 0 <= k < at ==> text_before(#[trigger] s[k], x@),
        decreases v.len() - at,
    {
        at = at + 1;
    }
    if at < v.len() && text::same_text(v[at].as_str(), x) {
        assert(s[at as int] == x@);
        return ;
    }
    let ghost before = v@;
    let ghost here = s.len() > at;
    proof {
        if here {
            text_order_is_total(s[at as int], x@);
        }
    }
    v.insert(at, x.to_owned());
    proof {
        let r = v.deep_view();
        assert(r =~= s.insert(at as int, x@));
        assert forall|i: int, j: int| 0 <= i < j < r.len() implies text_before(
            #[trigger] r[i],
            #[trigger] r[j],
        ) by {
            if i == at {
                if j - 1 > at {
                    text_order_is_transitive(x@, s[at as int], s[j - 1]);
                }
            }
        }
        assert forall|t: Seq<char>| #[trigger] r.contains(t) <==> s.contains(t) || t == x@ by {
            if s.contains(t) {
                let k = choose|k: int| 0 <= k < s.len() && s[k] == t;
                if k < at {
                    assert(r[k] == t);
                } else {
                    assert(r[k + 1] == t);
                }
            }
            if t == x@ {
                assert(r[at as int] == x@);
            }
            if r.contains(t) && t != x@ {
                let k = choose|k: int| 0 <= k < r.len() && r[k] == t;
                if k < at {
                    assert(s[k] == t);
                } else {
                    assert(s[k - 1] == t);
                }
            }
        }
    }
}

// ------------------------------------------------------------ lists in any order

/// Whether each member of a list comes before every later one.
pub open spec fn in_order<T>(s: Seq<T>, before: spec_fn(T, T) -> bool) -> bool {
    forall|i: int, j: int| 0 <= i < j < s.len() ==> before(#[trigger] s[i], #[trigger] s[j])
}

/// A member put where it belongs keeps a list in order, and adds itself alone.
pub proof fn inserting_keeps_order<T>(s: Seq<T>, at: int, u: T, before: spec_fn(T, T) -> bool)
    requires
        in_order(s, before),
        0 <= at <= s.len(),
        forall|i: int| 0 <= i < at ==> before(#[trigger] s[i], u),
        forall|j: int| at <= j < s.len() ==> before(u, #[trigger] s[j]),
    ensures
        in_order(s.insert(at, u), before),
        forall|x: T| #[trigger] s.insert(at, u).contains(x) <==> s.contains(x) || x == u,
{
    let r = s.insert(at, u);
    assert forall|x: T| #[trigger] r.contains(x) <==> s.contains(x) || x == u by {
        if s.contains(x) {
            let k = choose|k: int| 0 <= k < s.len() && s[k] == x;
            if k < at {
                assert(r[k] == x);
            } else {
                assert(r[k + 1] == x);
            }
        }
        if x == u {
            assert(r[at] == x);
        }
        if r.contains(x) && x != u {
            let k = choose|k: int| 0 <= k < r.len() && r[k] == x;
            if k < at {
                assert(s[k] == x);
            } else {
                assert(s[k - 1] == x);
            }
        }
    }
    assert forall|i: int, j: int| 0 <= i < j < r.len() implies before(
        #[trigger] r[i],
        #[trigger] r[j],
    ) by {
        if j < at {
            assert(r[i] == s[i] && r[j] == s[j]);
        } else if j == at {
            assert(r[i] == s[i]);
        } else {
            assert(r[j] == s[j - 1]);
            if i < at {
                assert(r[i] == s[i]);
            } else if i > at {
                assert(r[i] == s[i - 1]);
            }
        }
    }
}

/// Two lists with the same members in the same order are one.
pub proof fn same_order<T>(s: Seq<T>, t: Seq<T>, before: spec_fn(T, T) -> bool)
    requires
        forall|u: T| #[trigger] s.contains(u) <==> t.contains(u),
        forall|a: T, b: T| #[trigger] before(a, b) ==> !before(b, a),
        in_order(s, before),
        in_order(t, before),
    ensures
        s == t,
    decreases s.len(),
{
    if s.len() == 0 {
        if t.len() > 0 {
            assert(s.contains(t[0]) <==> t.contains(t[0]));
        }
        assert(s =~= t);
    } else {
        assert(s.contains(s[0]));
        assert(t.contains(s[0]));
        assert(t.contains(t[0]));
        assert(s.contains(t[0]));
        let a = choose|a: int| 0 <= a < t.len() && t[a] == s[0];
        let b = choose|b: int| 0 <= b < s.len() && s[b] == t[0];
        if a > 0 && b > 0 {
            assert(before(t[0], t[a]));
            assert(before(s[0], s[b]));
        }
        assert(s[0] == t[0]);
        let s1 = s.drop_first();
        let t1 = t.drop_first();
        assert forall|u: T| #[trigger] s1.contains(u) <==> t1.contains(u) by {
            if s1.contains(u) {
                let k = choose|k: int| 0 <= k < s1.len() && s1[k] == u;
                assert(s[k + 1] == u);
                assert(s.contains(u));
                assert(before(s[0], s[k + 1]));
                let n = choose|n: int| 0 <= n < t.len() && t[n] == u;
                assert(t1[n - 1] == u);
            }
            if t1.contains(u) {
                let k = choose|k: int| 0 <= k < t1.len() && t1[k] == u;
                assert(t[k + 1] == u);
                assert(s.contains(u) <==> t.contains(u));
                assert(before(t[0], t[k + 1]));
                let n = choose|n: int| 0 <= n < s.len() && s[n] == u;
                assert(s1[n - 1] == u);
            }
        }
        same_order(s1, t1, before);
        assert(s =~= seq![s[0]] + s1);
        assert(t =~= seq![t[0]] + t1);
    }
}

} // verus!
