//! Character-level helpers: splitting, ordering and joining of strings.
use vstd::prelude::*;
use crate::stdlib::push_char;

verus! {

/// Splits `s` at every occurrence of `sep`, as `str::split` does: the result
/// always holds at least one piece, and empty pieces are kept.
pub open spec fn split_spec(s: Seq<char>, sep: char) -> Seq<Seq<char>>
    decreases s.len(),
{
    if s.len() == 0 {
        seq![Seq::<char>::empty()]
    } else {
        let init = split_spec(s.drop_last(), sep);
        if s.last() == sep {
            init.push(Seq::<char>::empty())
        } else {
            init.update(init.len() - 1, init.last().push(s.last()))
        }
    }
}

/// The views of a list of strings.
pub open spec fn views(v: Seq<String>) -> Seq<Seq<char>> {
    v.map_values(|p: String| p@)
}

pub proof fn lemma_split_nonempty(s: Seq<char>, sep: char)
    ensures
        split_spec(s, sep).len() >= 1,
    decreases s.len(),
{
    if s.len() > 0 {
        lemma_split_nonempty(s.drop_last(), sep);
    }
}

/// A piece of a split holds no separator, and only characters of the text.
pub proof fn lemma_split_piece_chars(s: Seq<char>, sep: char, k: int, c: char)
    requires
        0 <= k < split_spec(s, sep).len(),
        split_spec(s, sep)[k].contains(c),
    ensures
        c != sep,
        s.contains(c),
    decreases s.len(),
{
    if s.len() == 0 {
        assert(split_spec(s, sep)[k] =~= Seq::<char>::empty());
    } else {
        let t = s.drop_last();
        let init = split_spec(t, sep);
        lemma_split_nonempty(t, sep);
        let piece = split_spec(s, sep)[k];
        if s.last() == sep {
            if k < init.len() {
                assert(piece == init[k]);
                lemma_split_piece_chars(t, sep, k, c);
                let j = choose|j: int| 0 <= j < t.len() && t[j] == c;
                assert(s[j] == c);
            } else {
                assert(piece =~= Seq::<char>::empty());
            }
        } else if k < init.len() - 1 {
            assert(piece == init[k]);
            lemma_split_piece_chars(t, sep, k, c);
            let j = choose|j: int| 0 <= j < t.len() && t[j] == c;
            assert(s[j] == c);
        } else {
            assert(piece == init.last().push(s.last()));
            let i = choose|i: int| 0 <= i < piece.len() && piece[i] == c;
            if i < piece.len() - 1 {
                assert(init.last()[i] == c);
                assert(init[init.len() - 1].contains(c));
                lemma_split_piece_chars(t, sep, init.len() - 1, c);
                let j = choose|j: int| 0 <= j < t.len() && t[j] == c;
                assert(s[j] == c);
            } else {
                assert(s[s.len() - 1] == c);
            }
        }
    }
}

/// Splits a string at every occurrence of `sep`.
pub fn split(s: &str, sep: char) -> (r: Vec<String>)
    ensures
        views(r@) == split_spec(s@, sep),
{
    let n = s.unicode_len();
    let mut pieces: Vec<String> = Vec::new();
    let mut start: usize = 0;
    let mut i: usize = 0;
    assert(s@.take(0) =~= Seq::<char>::empty());
    assert(s@.subrange(0, 0) =~= Seq::<char>::empty());
    assert(views(pieces@) + seq![s@.subrange(0, 0)] =~= split_spec(s@.take(0), sep));
    while i < n
        invariant
            n == s@.len(),
            start <= i <= n,
            views(pieces@) + seq![s@.subrange(start as int, i as int)] == split_spec(
                s@.take(i as int),
                sep,
            ),
        decreases n - i,
    {
        let c = s.get_char(i);
        let ghost old_pieces = views(pieces@);
        let ghost t = s@.take(i + 1);
        let ghost init = split_spec(s@.take(i as int), sep);
        assert(t.drop_last() =~= s@.take(i as int));
        assert(t.last() == c);
        assert(init == old_pieces + seq![s@.subrange(start as int, i as int)]);
        if c == sep {
            let piece = s.substring_char(start, i).to_owned();
            let ghost piece_start = start;
            pieces.push(piece);
            start = i + 1;
            assert(views(pieces@) =~= old_pieces.push(s@.subrange(piece_start as int, i as int)));
            assert(split_spec(t, sep) == init.push(Seq::<char>::empty()));
            assert(s@.subrange(start as int, i + 1) =~= Seq::<char>::empty());
            assert(views(pieces@) + seq![s@.subrange(start as int, i + 1)] =~= split_spec(t, sep));
        } else {
            assert(s@.subrange(start as int, i + 1) =~= s@.subrange(start as int, i as int).push(c));
            assert(split_spec(t, sep) == init.update(init.len() - 1, init.last().push(c)));
            assert(views(pieces@) + seq![s@.subrange(start as int, i + 1)] =~= split_spec(t, sep));
        }
        i += 1;
    }
    let last = s.substring_char(start, n).to_owned();
    pieces.push(last);
    assert(s@.take(n as int) =~= s@);
    assert(views(pieces@) =~= split_spec(s@, sep));
    pieces
}

} // verus!

verus! {

/// Lexicographic order on character sequences, comparing characters by their
/// code points; this is the order of `String`'s `Ord`.
pub open spec fn char_seq_lt(a: Seq<char>, b: Seq<char>) -> bool
    decreases a.len(),
{
    if a.len() == 0 {
        b.len() > 0
    } else if b.len() == 0 {
        false
    } else if a[0] != b[0] {
        (a[0] as u32) < (b[0] as u32)
    } else {
        char_seq_lt(a.drop_first(), b.drop_first())
    }
}

pub proof fn lemma_lt_irreflexive(a: Seq<char>)
    ensures
        !char_seq_lt(a, a),
    decreases a.len(),
{
    if a.len() > 0 {
        lemma_lt_irreflexive(a.drop_first());
    }
}

pub proof fn lemma_lt_total(a: Seq<char>, b: Seq<char>)
    ensures
        char_seq_lt(a, b) || a == b || char_seq_lt(b, a),
        !(char_seq_lt(a, b) && char_seq_lt(b, a)),
    decreases a.len(),
{
    if a.len() > 0 && b.len() > 0 {
        if a[0] == b[0] {
            lemma_lt_total(a.drop_first(), b.drop_first());
            if a.drop_first() == b.drop_first() {
                assert(a =~= seq![a[0]] + a.drop_first());
                assert(b =~= seq![b[0]] + b.drop_first());
            }
        } else {
            vstd::utf8::char_u32_cast(a[0], a[0] as u32);
            vstd::utf8::char_u32_cast(b[0], b[0] as u32);
        }
    } else if a.len() == 0 && b.len() == 0 {
        assert(a =~= b);
    }
}

pub proof fn lemma_lt_transitive(a: Seq<char>, b: Seq<char>, c: Seq<char>)
    requires
        char_seq_lt(a, b),
        char_seq_lt(b, c),
    ensures
        char_seq_lt(a, c),
    decreases a.len(),
{
    if a.len() > 0 && b.len() > 0 && c.len() > 0 {
        if a[0] == b[0] && b[0] == c[0] {
            lemma_lt_transitive(a.drop_first(), b.drop_first(), c.drop_first());
        }
    }
}

/// Dropping a common prefix does not change the order.
proof fn lemma_lt_common_prefix(a: Seq<char>, b: Seq<char>, i: int)
    requires
        0 <= i <= a.len(),
        i <= b.len(),
        a.take(i) == b.take(i),
    ensures
        char_seq_lt(a, b) == char_seq_lt(a.skip(i), b.skip(i)),
    decreases i,
{
    if i > 0 {
        assert(a[0] == a.take(i)[0]);
        assert(b[0] == b.take(i)[0]);
        assert(a.drop_first().take(i - 1) =~= a.take(i).drop_first());
        assert(b.drop_first().take(i - 1) =~= b.take(i).drop_first());
        lemma_lt_common_prefix(a.drop_first(), b.drop_first(), i - 1);
        assert(a.drop_first().skip(i - 1) =~= a.skip(i));
        assert(b.drop_first().skip(i - 1) =~= b.skip(i));
    } else {
        assert(a.skip(0) =~= a);
        assert(b.skip(0) =~= b);
    }
}

/// The outcome of a three-way comparison.
pub enum Cmp {
    Less,
    Equal,
    Greater,
}

/// Compares two strings in lexicographic order of their characters.
pub fn compare(a: &str, b: &str) -> (r: Cmp)
    ensures
        r is Less <==> char_seq_lt(a@, b@),
        r is Equal <==> a@ == b@,
        r is Greater <==> char_seq_lt(b@, a@),
{
    proof {
        lemma_lt_total(a@, b@);
        lemma_lt_irreflexive(a@);
    }
    let na = a.unicode_len();
    let nb = b.unicode_len();
    let mut i: usize = 0;
    assert(a@.take(0) =~= b@.take(0));
    while i < na && i < nb
        invariant
            na == a@.len(),
            nb == b@.len(),
            i <= na,
            i <= nb,
            a@.take(i as int) == b@.take(i as int),
        decreases na - i,
    {
        let ca = a.get_char(i);
        let cb = b.get_char(i);
        if ca != cb {
            proof {
                lemma_lt_common_prefix(a@, b@, i as int);
                lemma_lt_common_prefix(b@, a@, i as int);
                assert(a@.skip(i as int)[0] == ca);
                assert(b@.skip(i as int)[0] == cb);
                vstd::utf8::char_u32_cast(ca, ca as u32);
                vstd::utf8::char_u32_cast(cb, cb as u32);
            }
            if (ca as u32) < (cb as u32) {
                return Cmp::Less;
            } else {
                return Cmp::Greater;
            }
        }
        assert(a@.take(i + 1) =~= a@.take(i as int).push(ca));
        assert(b@.take(i + 1) =~= b@.take(i as int).push(cb));
        i += 1;
    }
    proof {
        lemma_lt_common_prefix(a@, b@, i as int);
        lemma_lt_common_prefix(b@, a@, i as int);
        if na == nb {
            assert(a@ =~= a@.take(i as int));
            assert(b@ =~= b@.take(i as int));
        }
    }
    if na < nb {
        Cmp::Less
    } else if na == nb {
        Cmp::Equal
    } else {
        Cmp::Greater
    }
}

/// Each element is smaller than every later one, so none occurs twice.
pub open spec fn strictly_sorted(s: Seq<Seq<char>>) -> bool {
    forall|i: int, j: int| 0 <= i < j < s.len() ==> char_seq_lt(#[trigger] s[i], #[trigger] s[j])
}

/// A strictly sorted sequence is fixed by the set of its elements.
pub proof fn lemma_sorted_unique(a: Seq<Seq<char>>, b: Seq<Seq<char>>)
    requires
        strictly_sorted(a),
        strictly_sorted(b),
        a.to_set() == b.to_set(),
    ensures
        a == b,
    decreases a.len() + b.len(),
{
    if a.len() == 0 {
        if b.len() > 0 {
            assert(b.to_set().contains(b[0]));
        }
        assert(a =~= b);
    } else if b.len() == 0 {
        assert(a.to_set().contains(a[0]));
    } else {
        let x = a.last();
        let y = b.last();
        assert(a.to_set().contains(x));
        assert(b.to_set().contains(y));
        let ia = choose|k: int| 0 <= k < a.len() && a[k] == y;
        let ib = choose|k: int| 0 <= k < b.len() && b[k] == x;
        if x != y {
            lemma_lt_total(x, y);
            if char_seq_lt(x, y) {
                if ia < a.len() - 1 {
                    lemma_lt_total(a[ia], a[a.len() - 1]);
                }
            } else {
                if ib < b.len() - 1 {
                    lemma_lt_total(b[ib], b[b.len() - 1]);
                }
            }
        }
        assert(x == y);
        let a2 = a.drop_last();
        let b2 = b.drop_last();
        assert forall|z: Seq<char>| a2.to_set().contains(z) implies b2.to_set().contains(z) by {
            let k = choose|k: int| 0 <= k < a2.len() && a2[k] == z;
            assert(a.to_set().contains(z));
            let m = choose|m: int| 0 <= m < b.len() && b[m] == z;
            if m == b.len() - 1 {
                lemma_lt_irreflexive(x);
            }
            assert(b2[m] == z);
        }
        assert forall|z: Seq<char>| b2.to_set().contains(z) implies a2.to_set().contains(z) by {
            let k = choose|k: int| 0 <= k < b2.len() && b2[k] == z;
            assert(b.to_set().contains(z));
            let m = choose|m: int| 0 <= m < a.len() && a[m] == z;
            if m == a.len() - 1 {
                lemma_lt_irreflexive(x);
            }
            assert(a2[m] == z);
        }
        assert(a2.to_set() =~= b2.to_set());
        lemma_sorted_unique(a2, b2);
        assert(a =~= a2.push(x));
        assert(b =~= b2.push(y));
    }
}

/// Inserts `x` into a strictly sorted list, unless it is already there.
pub fn insert_sorted(v: &mut Vec<String>, x: String)
    requires
        strictly_sorted(views(old(v)@)),
    ensures
        strictly_sorted(views(final(v)@)),
        views(final(v)@).to_set() == views(old(v)@).to_set().insert(x@),
{
    let ghost s = views(v@);
    let n = v.len();
    let mut i: usize = 0;
    let mut done = false;
    while !done && i < n
        invariant
            n == v@.len(),
            s == views(v@),
            strictly_sorted(s),
            i <= n,
            done ==> i < n && char_seq_lt(x@, s[i as int]),
            forall|k: int| 0 <= k < i ==> char_seq_lt(#[trigger] s[k], x@),
        decreases n - i, (if done { 0int } else { 1int }),
    {
        match compare(v[i].as_str(), x.as_str()) {
            Cmp::Less => {
                i += 1;
            },
            Cmp::Equal => {
                assert(s.to_set().insert(x@) =~= s.to_set()) by {
                    assert(s[i as int] == x@);
                }
                return;
            },
            Cmp::Greater => {
                done = true;
            },
        }
    }
    proof {
        assert forall|k: int| i <= k < n implies char_seq_lt(x@, #[trigger] s[k]) by {
            if k > i {
                assert(char_seq_lt(s[i as int], s[k]));
                lemma_lt_transitive(x@, s[i as int], s[k]);
            }
        }
    }
    v.insert(i, x);
    let ghost t = views(v@);
    assert(t =~= s.insert(i as int, x@));
    assert forall|a: int, b: int| 0 <= a < b < t.len() implies char_seq_lt(#[trigger] t[a], #[trigger] t[b]) by {
        if a < i && b == i {
        } else if a < i && b > i {
            assert(t[b] == s[b - 1]);
        } else if a == i {
            assert(t[b] == s[b - 1]);
        } else if a > i {
            assert(t[a] == s[a - 1]);
            assert(t[b] == s[b - 1]);
        }
    }
    assert(t.to_set() =~= s.to_set().insert(x@)) by {
        assert forall|z: Seq<char>| t.to_set().contains(z) implies s.to_set().insert(x@).contains(z) by {
            let k = choose|k: int| 0 <= k < t.len() && t[k] == z;
            if k < i {
                assert(s[k] == z);
            } else if k > i {
                assert(s[k - 1] == z);
            }
        }
        assert forall|z: Seq<char>| s.to_set().insert(x@).contains(z) implies t.to_set().contains(z) by {
            if z == x@ {
                assert(t[i as int] == z);
            } else {
                let k = choose|k: int| 0 <= k < s.len() && s[k] == z;
                if k < i {
                    assert(t[k] == z);
                } else {
                    assert(t[k + 1] == z);
                }
            }
        }
    }
}

} // verus!

verus! {

/// The first piece of a split is the text before the first separator.
pub proof fn lemma_split_first(s: Seq<char>, sep: char)
    ensures
        split_spec(s, sep).len() >= 1,
        split_spec(s, sep)[0].len() <= s.len(),
        s.take(split_spec(s, sep)[0].len() as int) == split_spec(s, sep)[0],
        split_spec(s, sep).len() == 1 ==> split_spec(s, sep)[0] == s,
        split_spec(s, sep).len() > 1 ==> split_spec(s, sep)[0].len() < s.len() && s[split_spec(
            s,
            sep,
        )[0].len() as int] == sep,
    decreases s.len(),
{
    lemma_split_nonempty(s, sep);
    if s.len() == 0 {
        assert(s.take(0) =~= Seq::<char>::empty());
    } else {
        let t = s.drop_last();
        lemma_split_first(t, sep);
        lemma_split_nonempty(t, sep);
        let init = split_spec(t, sep);
        let p0 = init[0];
        assert(t.take(p0.len() as int) == p0);
        assert(s.take(p0.len() as int) =~= t.take(p0.len() as int));
        if s.last() != sep && init.len() == 1 {
            assert(split_spec(s, sep)[0] == p0.push(s.last()));
            assert(s =~= t.push(s.last()));
            assert(s.take(s.len() as int) =~= s);
        }
    }
}

} // verus!

verus! {

/// The pieces joined with `sep` between each two of them.
pub open spec fn join_spec(parts: Seq<Seq<char>>, sep: char) -> Seq<char>
    decreases parts.len(),
{
    if parts.len() == 0 {
        Seq::empty()
    } else if parts.len() == 1 {
        parts[0]
    } else {
        join_spec(parts.drop_last(), sep).push(sep) + parts.last()
    }
}

/// `s` with every occurrence of `c` removed.
pub open spec fn without_char(s: Seq<char>, c: char) -> Seq<char>
    decreases s.len(),
{
    if s.len() == 0 {
        Seq::empty()
    } else if s.last() == c {
        without_char(s.drop_last(), c)
    } else {
        without_char(s.drop_last(), c).push(s.last())
    }
}

/// Splitting text that ends with a separator and a piece without one adds
/// that piece.
pub proof fn lemma_split_push_piece(a: Seq<char>, b: Seq<char>, sep: char)
    requires
        !b.contains(sep),
    ensures
        split_spec(a.push(sep) + b, sep) == split_spec(a, sep).push(b),
    decreases b.len(),
{
    if b.len() == 0 {
        assert(a.push(sep) + b =~= a.push(sep));
        assert(a.push(sep).drop_last() =~= a);
        assert(a.push(sep).last() == sep);
        assert(b =~= Seq::<char>::empty());
    } else {
        let c = b.last();
        let b0 = b.drop_last();
        assert(!b0.contains(sep)) by {
            if b0.contains(sep) {
                let j = choose|j: int| 0 <= j < b0.len() && b0[j] == sep;
                assert(b[j] == sep);
            }
        }
        assert(c != sep) by {
            assert(b[b.len() - 1] == c);
        }
        lemma_split_push_piece(a, b0, sep);
        let whole = a.push(sep) + b;
        assert(whole.drop_last() =~= a.push(sep) + b0);
        assert(whole.last() == c);
        lemma_split_nonempty(a, sep);
        let init = split_spec(a, sep).push(b0);
        assert(split_spec(whole.drop_last(), sep) == init);
        assert(split_spec(whole, sep) == init.update(init.len() - 1, init.last().push(c)));
        assert(b0.push(c) =~= b);
        assert(init.update(init.len() - 1, init.last().push(c)) =~= split_spec(a, sep).push(b));
    }
}

/// A text without the separator splits into itself.
pub proof fn lemma_split_single(s: Seq<char>, sep: char)
    requires
        !s.contains(sep),
    ensures
        split_spec(s, sep) == seq![s],
    decreases s.len(),
{
    if s.len() > 0 {
        let t = s.drop_last();
        assert(!t.contains(sep)) by {
            if t.contains(sep) {
                let j = choose|j: int| 0 <= j < t.len() && t[j] == sep;
                assert(s[j] == sep);
            }
        }
        assert(s.last() != sep) by {
            assert(s[s.len() - 1] == s.last());
        }
        lemma_split_single(t, sep);
        assert(t.push(s.last()) =~= s);
        let init = split_spec(t, sep);
        assert(split_spec(s, sep) == init.update(init.len() - 1, init.last().push(s.last())));
        assert(init.update(init.len() - 1, init.last().push(s.last())) =~= seq![s]);
    } else {
        assert(s =~= Seq::<char>::empty());
    }
}

/// Splitting text, a separator, and then pieces joined with the separator
/// gives the pieces of the text followed by those pieces.
pub proof fn lemma_split_push_join(a: Seq<char>, parts: Seq<Seq<char>>, sep: char)
    requires
        parts.len() > 0,
        forall|k: int| 0 <= k < parts.len() ==> !(#[trigger] parts[k]).contains(sep),
    ensures
        split_spec(a.push(sep) + join_spec(parts, sep), sep) == split_spec(a, sep) + parts,
    decreases parts.len(),
{
    assert(!parts.last().contains(sep)) by {
        assert(parts[parts.len() - 1] == parts.last());
    }
    if parts.len() == 1 {
        lemma_split_push_piece(a, parts[0], sep);
        assert(split_spec(a, sep).push(parts[0]) =~= split_spec(a, sep) + parts);
    } else {
        let init = parts.drop_last();
        assert forall|k: int| 0 <= k < init.len() implies !(#[trigger] init[k]).contains(sep) by {
            assert(init[k] == parts[k]);
        }
        lemma_split_push_join(a, init, sep);
        let front = a.push(sep) + join_spec(init, sep);
        assert(a.push(sep) + join_spec(parts, sep) =~= front.push(sep) + parts.last());
        lemma_split_push_piece(front, parts.last(), sep);
        assert((split_spec(a, sep) + init).push(parts.last()) =~= split_spec(a, sep) + parts);
    }
}

/// Joining pieces that do not hold the separator, and splitting the result,
/// gives the pieces back.
pub proof fn lemma_split_join(parts: Seq<Seq<char>>, sep: char)
    requires
        parts.len() > 0,
        forall|k: int| 0 <= k < parts.len() ==> !(#[trigger] parts[k]).contains(sep),
    ensures
        split_spec(join_spec(parts, sep), sep) == parts,
    decreases parts.len(),
{
    if parts.len() == 1 {
        lemma_split_single(parts[0], sep);
        assert(seq![parts[0]] =~= parts);
    } else {
        let init = parts.drop_last();
        assert forall|k: int| 0 <= k < init.len() implies !(#[trigger] init[k]).contains(sep) by {
            assert(init[k] == parts[k]);
        }
        lemma_split_join(init, sep);
        assert(!parts.last().contains(sep)) by {
            assert(parts[parts.len() - 1] == parts.last());
        }
        lemma_split_push_piece(join_spec(init, sep), parts.last(), sep);
        assert(init.push(parts.last()) =~= parts);
    }
}

/// Splitting a text and joining the pieces gives the text back.
pub proof fn lemma_join_split(s: Seq<char>, sep: char)
    ensures
        join_spec(split_spec(s, sep), sep) == s,
    decreases s.len(),
{
    lemma_split_nonempty(s, sep);
    if s.len() == 0 {
        assert(join_spec(seq![Seq::<char>::empty()], sep) == Seq::<char>::empty());
    } else {
        let t = s.drop_last();
        let c = s.last();
        lemma_join_split(t, sep);
        lemma_split_nonempty(t, sep);
        let init = split_spec(t, sep);
        if c == sep {
            let p = init.push(Seq::<char>::empty());
            assert(p.drop_last() =~= init);
            assert(join_spec(p, sep) =~= join_spec(init, sep).push(sep) + Seq::<char>::empty());
            assert(t.push(sep) =~= s);
        } else {
            let p = init.update(init.len() - 1, init.last().push(c));
            if init.len() == 1 {
                assert(join_spec(p, sep) == p[0]);
                assert(join_spec(init, sep) == init[0]);
                assert(t.push(c) =~= s);
            } else {
                assert(p.drop_last() =~= init.drop_last());
                assert(p.last() == init.last().push(c));
                assert(join_spec(p, sep) == join_spec(init.drop_last(), sep).push(sep) + init.last().push(c));
                assert(join_spec(init, sep) == join_spec(init.drop_last(), sep).push(sep) + init.last());
                assert(join_spec(init.drop_last(), sep).push(sep) + init.last().push(c) =~= (join_spec(
                    init.drop_last(),
                    sep,
                ).push(sep) + init.last()).push(c));
                assert(t.push(c) =~= s);
            }
        }
    }
}

/// Joins the strings with `sep` between each two of them.
pub fn join(parts: &[String], sep: char) -> (r: String)
    ensures
        r@ == join_spec(views(parts@), sep),
{
    let mut out = String::new();
    let n = parts.len();
    let mut i: usize = 0;
    assert(views(parts@).take(0) =~= Seq::<Seq<char>>::empty());
    while i < n
        invariant
            n == parts@.len(),
            i <= n,
            out@ == join_spec(views(parts@).take(i as int), sep),
        decreases n - i,
    {
        let ghost before = out@;
        if i > 0 {
            push_char(&mut out, sep);
        }
        let piece = parts[i].as_str();
        append_str(&mut out, piece);
        let ghost t = views(parts@).take(i + 1);
        assert(t.drop_last() =~= views(parts@).take(i as int));
        assert(t.last() == piece@);
        assert(out@ =~= join_spec(t, sep));
        i += 1;
    }
    assert(views(parts@).take(n as int) =~= views(parts@));
    out
}

/// `s` with every occurrence of `c` removed.
pub fn remove_char(s: &str, c: char) -> (r: String)
    ensures
        r@ == without_char(s@, c),
{
    let mut out = String::new();
    let n = s.unicode_len();
    let mut i: usize = 0;
    assert(s@.take(0) =~= Seq::<char>::empty());
    while i < n
        invariant
            n == s@.len(),
            i <= n,
            out@ == without_char(s@.take(i as int), c),
        decreases n - i,
    {
        let x = s.get_char(i);
        assert(s@.take(i + 1).drop_last() =~= s@.take(i as int));
        assert(s@.take(i + 1).last() == x);
        if x != c {
            push_char(&mut out, x);
        }
        i += 1;
    }
    assert(s@.take(n as int) =~= s@);
    out
}

} // verus!

verus! {

/// Appends the characters of `s` to `out`.
pub fn append_str(out: &mut String, s: &str)
    ensures
        final(out)@ == old(out)@ + s@,
{
    out.append(s);
}

} // verus!
