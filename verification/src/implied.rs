//! The computing part of the tool that lists, for each architecture, the
//! target features that enabling one feature also enables.
use vstd::prelude::*;
use crate::strings::eq;
use crate::text::{
    split, split_spec, views, append_str, join, join_spec, strictly_sorted, insert_sorted,
    char_seq_lt, compare, Cmp,
};
use crate::stdlib::push_char;

verus! {

/// The architectures the tool asks about.
pub open spec fn known_arch(arch: Seq<char>) -> bool {
    arch == "x86"@ || arch == "x86_64"@ || arch == "arm"@ || arch == "aarch64"@ || arch == "mips"@
        || arch == "mips64"@ || arch == "powerpc"@ || arch == "powerpc64"@ || arch == "riscv64"@
}

/// The target triple used to ask the compiler about an architecture.
pub open spec fn triple_spec(arch: Seq<char>) -> Seq<char> {
    if arch == "x86"@ || arch == "x86_64"@ {
        "x86_64-unknown-linux-gnu"@
    } else if arch == "arm"@ {
        "arm-unknown-linux-gnueabi"@
    } else if arch == "aarch64"@ {
        "aarch64-unknown-linux-gnu"@
    } else if arch == "mips"@ {
        "mips-unknown-linux-gnu"@
    } else if arch == "mips64"@ {
        "mips64-unknown-linux-gnuabi64"@
    } else if arch == "powerpc"@ {
        "powerpc-unknown-linux-gnu"@
    } else if arch == "powerpc64"@ {
        "powerpc64-unknown-linux-gnu"@
    } else {
        "riscv64gc-unknown-linux-gnu"@
    }
}

/// The target triple used to ask the compiler about an architecture.
pub fn triple(arch: &str) -> (r: &'static str)
    requires
        known_arch(arch@),
    ensures
        r@ == triple_spec(arch@),
{
    if eq(arch, "x86") || eq(arch, "x86_64") {
        "x86_64-unknown-linux-gnu"
    } else if eq(arch, "arm") {
        "arm-unknown-linux-gnueabi"
    } else if eq(arch, "aarch64") {
        "aarch64-unknown-linux-gnu"
    } else if eq(arch, "mips") {
        "mips-unknown-linux-gnu"
    } else if eq(arch, "mips64") {
        "mips64-unknown-linux-gnuabi64"
    } else if eq(arch, "powerpc") {
        "powerpc-unknown-linux-gnu"
    } else if eq(arch, "powerpc64") {
        "powerpc64-unknown-linux-gnu"
    } else {
        "riscv64gc-unknown-linux-gnu"
    }
}

/// A line without the carriage return that ends it, if any.
pub open spec fn strip_cr(l: Seq<char>) -> Seq<char> {
    if l.len() > 0 && l.last() == '\r' {
        l.drop_last()
    } else {
        l
    }
}

/// The lines of a text, as `str::lines` gives them: split at newlines, a
/// carriage return before a newline dropped, no line after a final newline.
pub open spec fn lines_spec(s: Seq<char>) -> Seq<Seq<char>> {
    let pieces = split_spec(s, '\n');
    let last = pieces.len() - 1;
    let init = Seq::new(last as nat, |k: int| strip_cr(pieces[k]));
    if pieces[last].len() == 0 {
        init
    } else {
        init.push(pieces[last])
    }
}

/// The feature that a line `target_feature="name"` of the compiler's
/// configuration output names.
pub open spec fn feature_of_line(l: Seq<char>) -> Option<Seq<char>> {
    let prefix = "target_feature=\""@;
    if l.len() >= prefix.len() + 1 && l.take(prefix.len() as int) == prefix && l.last() == '"' {
        Some(l.subrange(prefix.len() as int, l.len() - 1))
    } else {
        None
    }
}

/// The features that the lines name, in order, leaving out the
/// `llvm14-builtins-abi` pseudo-feature.
pub open spec fn cfg_features_spec(lines: Seq<Seq<char>>) -> Seq<Seq<char>>
    decreases lines.len(),
{
    if lines.len() == 0 {
        Seq::empty()
    } else {
        let init = cfg_features_spec(lines.drop_last());
        match feature_of_line(lines.last()) {
            Some(f) => if f == "llvm14-builtins-abi"@ {
                init
            } else {
                init.push(f)
            },
            None => init,
        }
    }
}

/// The lines of a text.
pub fn lines(s: &str) -> (r: Vec<String>)
    ensures
        views(r@) == lines_spec(s@),
{
    let pieces = split(s, '\n');
    proof {
        crate::text::lemma_split_nonempty(s@, '\n');
    }
    let n = pieces.len();
    let mut out: Vec<String> = Vec::new();
    let mut k: usize = 0;
    let ghost sp = split_spec(s@, '\n');
    while k + 1 < n
        invariant
            n == pieces@.len(),
            n >= 1,
            views(pieces@) == sp,
            k + 1 <= n,
            views(out@) == Seq::new(k as nat, |j: int| strip_cr(sp[j])),
        decreases n - k,
    {
        let p = pieces[k].as_str();
        let m = p.unicode_len();
        let line = if m > 0 && p.get_char(m - 1) == '\r' {
            p.substring_char(0, m - 1).to_owned()
        } else {
            p.to_owned()
        };
        assert(line@ == strip_cr(sp[k as int])) by {
            if m > 0 && p@[m - 1] == '\r' {
                assert(p@.subrange(0, m - 1) =~= p@.drop_last());
            }
        }
        let ghost before = views(out@);
        let ghost lv = line@;
        out.push(line);
        assert(views(out@) =~= before.push(lv));
        assert(views(out@) =~= Seq::new((k + 1) as nat, |j: int| strip_cr(sp[j])));
        k += 1;
    }
    if !pieces[n - 1].as_str().is_empty() {
        let ghost before = views(out@);
        out.push(pieces[n - 1].clone());
        assert(views(out@) =~= before.push(sp[n - 1]));
    }
    assert(views(out@) =~= lines_spec(s@));
    out
}

/// The feature that one line of the compiler's configuration output names.
pub fn feature_from_line(l: &str) -> (r: Option<String>)
    ensures
        match r {
            Some(f) => feature_of_line(l@) == Some(f@),
            None => feature_of_line(l@) is None,
        },
{
    let prefix = "target_feature=\"";
    let plen = prefix.unicode_len();
    let n = l.unicode_len();
    if n <= plen {
        return None;
    }
    let head = l.substring_char(0, plen);
    if !eq(head, prefix) {
        assert(l@.take(plen as int) =~= head@);
        return None;
    }
    if l.get_char(n - 1) != '"' {
        return None;
    }
    assert(l@.take(plen as int) =~= head@);
    Some(l.substring_char(plen, n - 1).to_owned())
}

/// The features that the compiler's configuration output lists.
pub fn parse_cfg_features(output: &str) -> (r: Vec<String>)
    ensures
        views(r@) == cfg_features_spec(lines_spec(output@)),
{
    let ls = lines(output);
    let ghost sl = views(ls@);
    let mut out: Vec<String> = Vec::new();
    let mut i: usize = 0;
    assert(sl.take(0) =~= Seq::<Seq<char>>::empty());
    while i < ls.len()
        invariant
            sl == views(ls@),
            i <= ls@.len(),
            views(out@) == cfg_features_spec(sl.take(i as int)),
        decreases ls@.len() - i,
    {
        assert(sl.take(i + 1).drop_last() =~= sl.take(i as int));
        assert(sl.take(i + 1).last() == ls@[i as int]@);
        match feature_from_line(ls[i].as_str()) {
            Some(f) => {
                if !eq(f.as_str(), "llvm14-builtins-abi") {
                    let ghost before = views(out@);
                    let ghost fv = f@;
                    out.push(f);
                    assert(views(out@) =~= before.push(fv));
                }
            },
            None => {},
        }
        i += 1;
    }
    assert(sl.take(ls@.len() as int) =~= sl);
    out
}

} // verus!

verus! {

/// The flags that switch off each of the given features: `-f1,-f2,..`.
pub fn disable_flags(defaults: &[String]) -> (r: String)
    ensures
        r@ == join_spec(views(defaults@).map_values(|f: Seq<char>| seq!['-'] + f), ','),
{
    let mut flags: Vec<String> = Vec::new();
    let mut i: usize = 0;
    while i < defaults.len()
        invariant
            i <= defaults@.len(),
            views(flags@) == views(defaults@).take(i as int).map_values(|f: Seq<char>| seq!['-'] + f),
        decreases defaults@.len() - i,
    {
        let mut flag = String::new();
        push_char(&mut flag, '-');
        append_str(&mut flag, defaults[i].as_str());
        let ghost before = views(flags@);
        let ghost fv = flag@;
        flags.push(flag);
        assert(views(flags@) =~= before.push(fv));
        assert(views(flags@) =~= views(defaults@).take(i + 1).map_values(|f: Seq<char>| seq!['-'] + f));
        i += 1;
    }
    assert(views(defaults@).take(defaults@.len() as int) =~= views(defaults@));
    join(flags.as_slice(), ',')
}

/// The extra flags that an architecture needs: MIPS needs `fp64`.
pub open spec fn arch_extra_spec(arch: Seq<char>) -> Seq<char> {
    if arch.len() >= 4 && arch.take(4) == "mips"@ {
        ",+fp64"@
    } else {
        Seq::empty()
    }
}

/// The flags asking the compiler for the features that `feature` enables
/// once the default features are switched off.
pub fn feature_flags(disable: &str, feature: &str, arch: &str) -> (r: String)
    ensures
        r@ == disable@ + seq![',', '+'] + feature@ + arch_extra_spec(arch@),
{
    let mut flags = String::new();
    append_str(&mut flags, disable);
    push_char(&mut flags, ',');
    push_char(&mut flags, '+');
    append_str(&mut flags, feature);
    let n = arch.unicode_len();
    let mips = n >= 4 && eq(arch.substring_char(0, 4), "mips");
    if mips {
        append_str(&mut flags, ",+fp64");
    }
    assert(flags@ =~= disable@ + seq![',', '+'] + feature@ + arch_extra_spec(arch@)) by {
        if n >= 4 {
            assert(arch@.take(4) =~= arch@.subrange(0, 4));
        }
    }
    flags
}

/// Whether `f` is in both lists.
pub open spec fn in_both(a: Seq<Seq<char>>, b: Seq<Seq<char>>, f: Seq<char>) -> bool {
    a.contains(f) && b.contains(f)
}

fn has_name(list: &[String], s: &str) -> (r: bool)
    ensures
        r == views(list@).contains(s@),
{
    let mut i: usize = 0;
    while i < list.len()
        invariant
            i <= list@.len(),
            forall|j: int| 0 <= j < i ==> list@[j]@ != s@,
        decreases list@.len() - i,
    {
        if eq(list[i].as_str(), s) {
            assert(views(list@)[i as int] == s@);
            return true;
        }
        i += 1;
    }
    assert(!views(list@).contains(s@)) by {
        if views(list@).contains(s@) {
            let k = choose|k: int| 0 <= k < views(list@).len() && views(list@)[k] == s@;
            assert(list@[k]@ == s@);
        }
    }
    false
}

/// The features that `feature` implies: those the compiler reports that
/// are also possible features, sorted; `None` unless there are two or more.
pub fn implied_entry(feature: &str, reported: &[String], possible: &[String]) -> (r: Option<(String, Vec<String>)>)
    ensures
        match r {
            Some((f, v)) => {
                &&& f@ == feature@
                &&& strictly_sorted(views(v@))
                &&& v@.len() > 1
                &&& forall|x: Seq<char>| views(v@).contains(x) <==> in_both(views(reported@), views(possible@), x)
            },
            None => forall|x: Seq<char>, y: Seq<char>|
                in_both(views(reported@), views(possible@), x) && in_both(views(reported@), views(possible@), y) ==> x == y,
        },
{
    let mut v: Vec<String> = Vec::new();
    let mut i: usize = 0;
    let ghost rep = views(reported@);
    let ghost pos = views(possible@);
    while i < reported.len()
        invariant
            rep == views(reported@),
            pos == views(possible@),
            i <= reported@.len(),
            strictly_sorted(views(v@)),
            forall|x: Seq<char>| #[trigger] views(v@).contains(x) ==> rep.take(i as int).contains(x) && pos.contains(x),
            forall|x: Seq<char>| rep.take(i as int).contains(x) && pos.contains(x) ==> #[trigger] views(v@).contains(x),
        decreases reported@.len() - i,
    {
        let ghost before = views(v@);
        let ghost r = rep[i as int];
        let ghost ti = rep.take(i as int);
        let ghost tn = rep.take(i + 1);
        assert(tn =~= ti.push(r));
        let keep = has_name(possible, reported[i].as_str());
        if keep {
            insert_sorted(&mut v, reported[i].clone());
        }
        assert forall|x: Seq<char>| #[trigger] views(v@).contains(x) implies rep.take(i + 1).contains(x) && pos.contains(x) by {
            assert(views(v@).to_set().contains(x));
            if x != r || !keep {
                assert(before.to_set().contains(x));
                assert(before.contains(x));
                let k = choose|k: int| 0 <= k < ti.len() && #[trigger] ti[k] == x;
                assert(tn[k] == x);
            } else {
                assert(tn[i as int] == x);
            }
        }
        assert forall|x: Seq<char>| rep.take(i + 1).contains(x) && pos.contains(x) implies #[trigger] views(v@).contains(x) by {
            let k = choose|k: int| 0 <= k < tn.len() && #[trigger] tn[k] == x;
            if k < i {
                assert(ti[k] == x);
                assert(before.contains(x));
                assert(before.to_set().contains(x));
                assert(views(v@).to_set().contains(x));
            } else {
                assert(x == r);
                assert(views(v@).to_set().contains(x));
            }
        }
        i += 1;
    }
    assert(rep.take(reported@.len() as int) =~= rep);
    if v.len() > 1 {
        assert forall|x: Seq<char>| #[trigger] views(v@).contains(x) <==> in_both(rep, pos, x) by {
            if in_both(rep, pos, x) {
                assert(rep.take(reported@.len() as int).contains(x));
            }
        }
        Some((feature.to_owned(), v))
    } else {
        proof {
            assert forall|x: Seq<char>, y: Seq<char>| in_both(rep, pos, x) && in_both(rep, pos, y) implies x == y by {
                assert(views(v@).contains(x));
                assert(views(v@).contains(y));
            }
        }
        None
    }
}

/// Whether the entries are in order of their feature names.
pub open spec fn sorted_by_name(s: Seq<(String, Vec<String>)>) -> bool {
    forall|i: int, j: int| 0 <= i < j < s.len() ==> !char_seq_lt((#[trigger] s[j]).0@, (#[trigger] s[i]).0@)
}

/// Inserts an entry after every entry whose name is not greater, keeping the
/// entries in order of their names.
pub fn insert_entry(entries: &mut Vec<(String, Vec<String>)>, e: (String, Vec<String>))
    requires
        sorted_by_name(old(entries)@),
    ensures
        sorted_by_name(final(entries)@),
        exists|pos: int| 0 <= pos <= old(entries)@.len() && final(entries)@ == old(entries)@.insert(pos, e)
            && (forall|j: int| 0 <= j < pos ==> !char_seq_lt(e.0@, (#[trigger] old(entries)@[j]).0@))
            && (forall|j: int| pos <= j < old(entries)@.len() ==> char_seq_lt(e.0@, (#[trigger] old(entries)@[j]).0@)),
{
    let ghost s = entries@;
    let n = entries.len();
    let mut i: usize = 0;
    let mut done = false;
    while !done && i < n
        invariant
            n == entries@.len(),
            s == entries@,
            sorted_by_name(s),
            i <= n,
            done ==> i < n && char_seq_lt(e.0@, s[i as int].0@),
            forall|j: int| 0 <= j < i ==> !char_seq_lt(e.0@, (#[trigger] s[j]).0@),
        decreases n - i, (if done { 0int } else { 1int }),
    {
        match compare(entries[i].0.as_str(), e.0.as_str()) {
            Cmp::Greater => {
                done = true;
            },
            _ => {
                proof {
                    crate::text::lemma_lt_total(s[i as int].0@, e.0@);
                }
                i += 1;
            },
        }
    }
    proof {
        assert forall|j: int| i <= j < n implies char_seq_lt(e.0@, (#[trigger] s[j]).0@) by {
            if j > i {
                assert(!char_seq_lt(s[j].0@, s[i as int].0@));
                crate::text::lemma_lt_total(s[j].0@, s[i as int].0@);
                if s[j].0@ != s[i as int].0@ {
                    crate::text::lemma_lt_transitive(e.0@, s[i as int].0@, s[j].0@);
                }
            }
        }
    }
    let ghost pos = i as int;
    entries.insert(i, e);
    let ghost t = entries@;
    assert(t =~= s.insert(pos, e));
    assert forall|a: int, b: int| 0 <= a < b < t.len() implies !char_seq_lt((#[trigger] t[b]).0@, (#[trigger] t[a]).0@) by {
        if b < pos {
            assert(t[a] == s[a]);
            assert(t[b] == s[b]);
        } else if a < pos && b == pos {
            assert(t[a] == s[a]);
            crate::text::lemma_lt_total(e.0@, s[a].0@);
        } else if a < pos {
            assert(t[a] == s[a]);
            assert(t[b] == s[b - 1]);
        } else if a == pos {
            assert(t[b] == s[b - 1]);
            crate::text::lemma_lt_total(e.0@, s[b - 1].0@);
            crate::text::lemma_lt_irreflexive(e.0@);
        } else {
            assert(t[a] == s[a - 1]);
            assert(t[b] == s[b - 1]);
        }
    }
}

/// A line of the tool's output: `arch feature: implied1 implied2 ..`.
pub fn entry_line(arch: &str, feature: &str, implied: &[String]) -> (r: String)
    ensures
        r@ == arch@ + seq![' '] + feature@ + seq![':', ' '] + join_spec(views(implied@), ' '),
{
    let mut line = String::new();
    append_str(&mut line, arch);
    push_char(&mut line, ' ');
    append_str(&mut line, feature);
    push_char(&mut line, ':');
    push_char(&mut line, ' ');
    let rest = join(implied, ' ');
    append_str(&mut line, rest.as_str());
    assert(line@ =~= arch@ + seq![' '] + feature@ + seq![':', ' '] + join_spec(views(implied@), ' '));
    line
}

/// Whether a feature's entry is kept: at least two different features are
/// both reported and possible.
pub open spec fn qualifies(reported: Seq<Seq<char>>, possible: Seq<Seq<char>>) -> bool {
    exists|x: Seq<char>, y: Seq<char>|
        #![trigger in_both(reported, possible, x), in_both(reported, possible, y)]
        in_both(reported, possible, x) && in_both(reported, possible, y) && x != y
}

/// The implied list of an entry: sorted, of the features both reported and
/// possible, and with more than one of them.
pub open spec fn entry_ok(v: Seq<Seq<char>>, reported: Seq<Seq<char>>, possible: Seq<Seq<char>>) -> bool {
    &&& strictly_sorted(v)
    &&& v.len() > 1
    &&& forall|x: Seq<char>| #[trigger] v.contains(x) <==> in_both(reported, possible, x)
}

/// How many of the first `n` features keep an entry.
pub open spec fn qualifying_count(reported: Seq<Seq<Seq<char>>>, possible: Seq<Seq<char>>, n: int) -> nat
    decreases n,
{
    if n <= 0 {
        0
    } else {
        qualifying_count(reported, possible, n - 1) + if qualifies(reported[n - 1], possible) { 1nat } else { 0nat }
    }
}

/// An entry is that of one of the first `n` features.
pub open spec fn entry_from(e: (String, Vec<String>), possible: Seq<String>, reported: Seq<Vec<String>>, n: int) -> bool {
    exists|i: int| 0 <= i < n && e.0@ == possible[i]@ && entry_ok(views(e.1@), views(reported[i]@), views(possible))
}

/// What the compiler reported for each feature.
pub open spec fn reports(reported: Seq<Vec<String>>) -> Seq<Seq<Seq<char>>> {
    reported.map_values(|v: Vec<String>| views(v@))
}

/// The table of implied features of one architecture. `reported[i]` is what
/// the compiler enables for `possible[i]` once the default features are
/// switched off. Each feature that implies at least two possible features
/// (itself among them) gets an entry; the entries are in order of names.
pub fn get_implied_features(possible: &[String], reported: &[Vec<String>]) -> (r: Vec<(String, Vec<String>)>)
    requires
        possible@.len() == reported@.len(),
    ensures
        sorted_by_name(r@),
        r@.len() == qualifying_count(reports(reported@), views(possible@), possible@.len() as int),
        forall|k: int| 0 <= k < r@.len() ==> entry_from(#[trigger] r@[k], possible@, reported@, possible@.len() as int),
        forall|i: int| 0 <= i < possible@.len() && qualifies(views(#[trigger] reported@[i]@), views(possible@)) ==>
            exists|k: int| 0 <= k < r@.len() && (#[trigger] r@[k]).0@ == possible@[i]@
                && entry_ok(views(r@[k].1@), views(reported@[i]@), views(possible@)),
{
    let ghost pv = views(possible@);
    let ghost rv = reports(reported@);
    let mut out: Vec<(String, Vec<String>)> = Vec::new();
    let mut i: usize = 0;
    while i < possible.len()
        invariant
            possible@.len() == reported@.len(),
            pv == views(possible@),
            rv == reports(reported@),
            i <= possible@.len(),
            sorted_by_name(out@),
            out@.len() == qualifying_count(rv, pv, i as int),
            forall|k: int| 0 <= k < out@.len() ==> entry_from(#[trigger] out@[k], possible@, reported@, i as int),
            forall|j: int| 0 <= j < i && qualifies(views(#[trigger] reported@[j]@), pv) ==>
                exists|k: int| 0 <= k < out@.len() && (#[trigger] out@[k]).0@ == possible@[j]@
                    && entry_ok(views(out@[k].1@), views(reported@[j]@), pv),
        decreases possible@.len() - i,
    {
        let ghost old_out = out@;
        let ghost rep = views(reported@[i as int]@);
        assert(rv[i as int] == rep);
        match implied_entry(possible[i].as_str(), reported[i].as_slice(), possible) {
            Some(e) => {
                let ghost ev = e;
                proof {
                    let v = views(e.1@);
                    assert(v[0] != v[1]) by {
                        crate::text::lemma_lt_irreflexive(v[0]);
                    }
                    assert(v.contains(v[0]));
                    assert(v.contains(v[1]));
                    assert(in_both(rep, pv, v[0]) && in_both(rep, pv, v[1]));
                    assert(qualifies(rep, pv));
                }
                insert_entry(&mut out, e);
                proof {
                    let pos = choose|pos: int| 0 <= pos <= old_out.len() && out@ == old_out.insert(pos, ev)
                        && (forall|j: int| 0 <= j < pos ==> !char_seq_lt(ev.0@, (#[trigger] old_out[j]).0@))
                        && (forall|j: int| pos <= j < old_out.len() ==> char_seq_lt(ev.0@, (#[trigger] old_out[j]).0@));
                    assert forall|k: int| 0 <= k < out@.len() implies entry_from(#[trigger] out@[k], possible@, reported@, i + 1) by {
                        if k < pos {
                            assert(out@[k] == old_out[k]);
                            assert(entry_from(old_out[k], possible@, reported@, i as int));
                        } else if k == pos {
                            assert(out@[k] == ev);
                            assert(entry_ok(views(out@[k].1@), views(reported@[i as int]@), pv));
                        } else {
                            assert(out@[k] == old_out[k - 1]);
                            assert(entry_from(old_out[k - 1], possible@, reported@, i as int));
                        }
                    }
                    assert forall|j: int| 0 <= j < i + 1 && qualifies(views(#[trigger] reported@[j]@), pv) implies
                        exists|k: int| 0 <= k < out@.len() && (#[trigger] out@[k]).0@ == possible@[j]@
                            && entry_ok(views(out@[k].1@), views(reported@[j]@), pv) by {
                        if j == i {
                            assert(out@[pos] == ev);
                        } else {
                            let k = choose|k: int| 0 <= k < old_out.len() && (#[trigger] old_out[k]).0@ == possible@[j]@
                                && entry_ok(views(old_out[k].1@), views(reported@[j]@), pv);
                            if k < pos {
                                assert(out@[k] == old_out[k]);
                            } else {
                                assert(out@[k + 1] == old_out[k]);
                            }
                        }
                    }
                }
            },
            None => {
                proof {
                    assert(!qualifies(rep, pv));
                }
            },
        }
        i += 1;
    }
    assert forall|k: int| 0 <= k < out@.len() implies exists|j: int|
        0 <= j < possible@.len() && (#[trigger] out@[k]).0@ == possible@[j]@
            && entry_ok(views(out@[k].1@), views(reported@[j]@), views(possible@)) by {
        let j = choose|j: int| 0 <= j < i && (#[trigger] out@[k]).0@ == possible@[j]@
            && entry_ok(views(out@[k].1@), views(reported@[j]@), pv);
        assert(0 <= j < possible@.len() && out@[k].0@ == possible@[j]@
            && entry_ok(views(out@[k].1@), views(reported@[j]@), views(possible@)));
    }
    out
}

/// The entry that a line of the table holds, `arch feature: implied ..`: the
/// words between single spaces, the second of which ends with a colon.
pub open spec fn entry_of_line(l: Seq<char>) -> Option<(Seq<char>, Seq<char>, Seq<Seq<char>>)> {
    let words = split_spec(l, ' ');
    if words.len() >= 2 && words[1].len() >= 1 && words[1].last() == ':' {
        Some((words[0], words[1].drop_last(), words.skip(2)))
    } else {
        None
    }
}

/// Reads a line of the table: the architecture, the feature and the features
/// it implies; `None` where the line is not of that form.
pub fn parse_entry_line(l: &str) -> (r: Option<(String, String, Vec<String>)>)
    ensures
        match r {
            Some((a, f, v)) => entry_of_line(l@) == Some((a@, f@, views(v@))),
            None => entry_of_line(l@) is None,
        },
{
    let words = split(l, ' ');
    let ghost ws = split_spec(l@, ' ');
    if words.len() < 2 {
        return None;
    }
    let second = words[1].as_str();
    let m = second.unicode_len();
    if m == 0 || second.get_char(m - 1) != ':' {
        return None;
    }
    let arch = words[0].as_str().to_owned();
    let feature = second.substring_char(0, m - 1).to_owned();
    assert(feature@ =~= ws[1].drop_last());
    let mut implied: Vec<String> = Vec::new();
    let mut k: usize = 2;
    assert(views(implied@) =~= ws.subrange(2, 2));
    while k < words.len()
        invariant
            ws == views(words@),
            2 <= k <= words@.len(),
            views(implied@) == ws.subrange(2, k as int),
        decreases words@.len() - k,
    {
        let w = words[k].as_str().to_owned();
        let ghost before = views(implied@);
        implied.push(w);
        assert(views(implied@) =~= before.push(ws[k as int]));
        assert(ws.subrange(2, k + 1) =~= ws.subrange(2, k as int).push(ws[k as int]));
        k += 1;
    }
    assert(ws.subrange(2, ws.len() as int) =~= ws.skip(2));
    Some((arch, feature, implied))
}

/// A line that the tool writes reads back as the entry it was written from:
/// where no name holds a space and the entry lists at least one feature.
pub proof fn lemma_entry_line_roundtrip(arch: Seq<char>, feature: Seq<char>, implied: Seq<Seq<char>>)
    requires
        !arch.contains(' '),
        !feature.contains(' '),
        implied.len() > 0,
        forall|k: int| 0 <= k < implied.len() ==> !(#[trigger] implied[k]).contains(' '),
    ensures
        entry_of_line(arch + seq![' '] + feature + seq![':', ' '] + join_spec(implied, ' ')) == Some(
            (arch, feature, implied),
        ),
{
    let head = feature.push(':');
    assert(!head.contains(' ')) by {
        if head.contains(' ') {
            let j = choose|j: int| 0 <= j < head.len() && head[j] == ' ';
            if j < feature.len() {
                assert(feature[j] == ' ');
            }
        }
    }
    let line = arch + seq![' '] + feature + seq![':', ' '] + join_spec(implied, ' ');
    let front = arch.push(' ') + head;
    assert(line =~= front.push(' ') + join_spec(implied, ' '));
    crate::text::lemma_split_single(arch, ' ');
    crate::text::lemma_split_push_piece(arch, head, ' ');
    assert(split_spec(front, ' ') == seq![arch, head]);
    crate::text::lemma_split_push_join(front, implied, ' ');
    let words = split_spec(line, ' ');
    assert(words == seq![arch, head] + implied);
    assert(words[0] == arch);
    assert(words[1] == head);
    assert(head.drop_last() =~= feature);
    assert(words.skip(2) =~= implied);
}

/// The entries of the table's lines, or `None` where a line is not an entry.
pub open spec fn table_entries(ls: Seq<Seq<char>>) -> Option<Seq<(Seq<char>, Seq<char>, Seq<Seq<char>>)>>
    decreases ls.len(),
{
    if ls.len() == 0 {
        Some(Seq::empty())
    } else {
        match (table_entries(ls.drop_last()), entry_of_line(ls.last())) {
            (Some(es), Some(e)) => Some(es.push(e)),
            _ => None,
        }
    }
}

/// The features that enabling `feature` on `arch` enables, by the entries:
/// those of the first entry for them, or the feature alone.
pub open spec fn lookup_spec(
    es: Seq<(Seq<char>, Seq<char>, Seq<Seq<char>>)>,
    arch: Seq<char>,
    feature: Seq<char>,
) -> Seq<Seq<char>>
    decreases es.len(),
{
    if es.len() == 0 {
        seq![feature]
    } else if es[0].0 == arch && es[0].1 == feature {
        es[0].2
    } else {
        lookup_spec(es.drop_first(), arch, feature)
    }
}

/// Looks a feature up in the table text: `None` where a line of the table is
/// not an entry, else what the first entry for the feature lists, or the
/// feature alone.
pub fn implied_by_table(table: &str, arch: &str, feature: &str) -> (r: Option<Vec<String>>)
    ensures
        match table_entries(lines_spec(table@)) {
            None => r is None,
            Some(es) => r matches Some(v) && views(v@) == lookup_spec(es, arch@, feature@),
        },
{
    let ls = lines(table);
    let ghost lv = views(ls@);
    let mut archs: Vec<String> = Vec::new();
    let mut feats: Vec<String> = Vec::new();
    let mut lists: Vec<Vec<String>> = Vec::new();
    let ghost mut es: Seq<(Seq<char>, Seq<char>, Seq<Seq<char>>)> = Seq::empty();
    let mut i: usize = 0;
    assert(lv.take(0) =~= Seq::<Seq<char>>::empty());
    while i < ls.len()
        invariant
            lv == views(ls@),
            lv == lines_spec(table@),
            i <= ls@.len(),
            table_entries(lv.take(i as int)) == Some(es),
            es.len() == i,
            archs@.len() == i,
            feats@.len() == i,
            lists@.len() == i,
            forall|k: int| 0 <= k < i ==> (#[trigger] es[k]) == (archs@[k]@, feats@[k]@, views(lists@[k]@)),
        decreases ls@.len() - i,
    {
        assert(lv.take(i + 1).drop_last() =~= lv.take(i as int));
        assert(lv.take(i + 1).last() == ls@[i as int]@);
        match parse_entry_line(ls[i].as_str()) {
            None => {
                proof {
                    lemma_table_error_sticks(lv, i + 1);
                }
                return None;
            },
            Some((a, f, v)) => {
                proof {
                    es = es.push((a@, f@, views(v@)));
                }
                archs.push(a);
                feats.push(f);
                lists.push(v);
            },
        }
        i += 1;
    }
    assert(lv.take(ls@.len() as int) =~= lv);
    assert(es.skip(0) =~= es);
    let mut j: usize = 0;
    while j < archs.len()
        invariant
            table_entries(lines_spec(table@)) == Some(es),
            es.len() == archs@.len(),
            archs@.len() == feats@.len(),
            archs@.len() == lists@.len(),
            j <= archs@.len(),
            forall|k: int| 0 <= k < archs@.len() ==> (#[trigger] es[k]) == (archs@[k]@, feats@[k]@, views(lists@[k]@)),
            lookup_spec(es, arch@, feature@) == lookup_spec(es.skip(j as int), arch@, feature@),
        decreases archs@.len() - j,
    {
        assert(es.skip(j as int)[0] == es[j as int]);
        assert(es.skip(j as int).drop_first() =~= es.skip(j + 1));
        if eq(archs[j].as_str(), arch) && eq(feats[j].as_str(), feature) {
            let mut out: Vec<String> = Vec::new();
            let mut k: usize = 0;
            let ghost target = views(lists@[j as int]@);
            while k < lists[j].len()
                invariant
                    j < lists@.len(),
                    target == views(lists@[j as int]@),
                    k <= lists@[j as int]@.len(),
                    views(out@) == target.take(k as int),
                decreases lists@[j as int]@.len() - k,
            {
                let w = lists[j][k].as_str().to_owned();
                let ghost before = views(out@);
                out.push(w);
                assert(views(out@) =~= before.push(target[k as int]));
                assert(target.take(k + 1) =~= target.take(k as int).push(target[k as int]));
                k += 1;
            }
            assert(target.take(target.len() as int) =~= target);
            return Some(out);
        }
        j += 1;
    }
    assert(es.skip(archs@.len() as int) =~= Seq::<(Seq<char>, Seq<char>, Seq<Seq<char>>)>::empty());
    let mut out: Vec<String> = Vec::new();
    out.push(feature.to_owned());
    assert(views(out@) =~= seq![feature@]);
    Some(out)
}

proof fn lemma_table_error_sticks(ls: Seq<Seq<char>>, n: int)
    requires
        0 <= n <= ls.len(),
        table_entries(ls.take(n)) is None,
    ensures
        table_entries(ls) is None,
    decreases ls.len() - n,
{
    if n < ls.len() {
        assert(ls.take(n + 1).drop_last() =~= ls.take(n));
        lemma_table_error_sticks(ls, n + 1);
    } else {
        assert(ls.take(n) =~= ls);
    }
}

} // verus!
