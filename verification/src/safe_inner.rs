//! `#[safe_inner]` on an `unsafe fn`: the body moves into a safe inner
//! function, which the unsafe function calls, so that the body is checked
//! as safe code.
use vstd::prelude::*;
use crate::text::append_str;

verus! {

/// What an attribute of the function is, as far as this rewriting cares.
#[derive(PartialEq, Eq, Structural, Clone, Copy, Debug)]
pub enum AttrKind {
    /// Exactly `#[safe_inner]`.
    SafeInner,
    /// A `#[cfg(..)]` attribute.
    Cfg,
    Other,
}

/// How the function is split.
#[derive(Debug)]
pub struct SafeInnerPlan {
    /// The index of the `#[safe_inner]` attribute that is taken off.
    pub marker: usize,
    /// The attributes that stay on the unsafe function, by index, in order:
    /// all but the marker.
    pub unsafe_attrs: Vec<usize>,
    /// The `#[cfg]` attributes copied to the safe inner function, by index,
    /// in order; it also gets `#[inline(always)]`.
    pub safe_attrs: Vec<usize>,
    /// The name of the safe inner function: `__safe_inner_` and the name of
    /// the function.
    pub safe_name: String,
}

/// `#[safe_inner]` is only for unsafe functions: the index of the attribute.
#[derive(PartialEq, Eq, Structural, Clone, Copy, Debug)]
pub struct NotUnsafe {
    pub attr: usize,
}

/// The index of the first `#[safe_inner]` among the first `n` attributes.
pub open spec fn first_marker(attrs: Seq<AttrKind>, n: int) -> Option<int>
    decreases n,
{
    if n <= 0 {
        None
    } else {
        match first_marker(attrs, n - 1) {
            Some(i) => Some(i),
            None => if attrs[n - 1] == AttrKind::SafeInner {
                Some(n - 1)
            } else {
                None
            },
        }
    }
}

/// The indices below `n`, in order, other than `skip`.
pub open spec fn all_but(n: int, skip: int) -> Seq<int>
    decreases n,
{
    if n <= 0 {
        Seq::empty()
    } else if n - 1 == skip {
        all_but(n - 1, skip)
    } else {
        all_but(n - 1, skip).push(n - 1)
    }
}

/// The indices of the `#[cfg]` attributes among the first `n`, in order.
pub open spec fn cfg_indices(attrs: Seq<AttrKind>, n: int) -> Seq<int>
    decreases n,
{
    if n <= 0 {
        Seq::empty()
    } else if attrs[n - 1] == AttrKind::Cfg {
        cfg_indices(attrs, n - 1).push(n - 1)
    } else {
        cfg_indices(attrs, n - 1)
    }
}

pub open spec fn as_ints(v: Seq<usize>) -> Seq<int> {
    v.map_values(|i: usize| i as int)
}

proof fn lemma_first_marker_prefix(attrs: Seq<AttrKind>, m: int, n: int)
    requires
        0 <= m <= n,
        first_marker(attrs, m) is Some,
    ensures
        first_marker(attrs, n) == first_marker(attrs, m),
    decreases n - m,
{
    if m < n {
        lemma_first_marker_prefix(attrs, m, n - 1);
    }
}

fn find_marker(attrs: &[AttrKind]) -> (r: Option<usize>)
    ensures
        match first_marker(attrs@, attrs@.len() as int) {
            None => r is None,
            Some(i) => r == Some(i as usize) && 0 <= i < attrs@.len(),
        },
{
    let n = attrs.len();
    let mut i: usize = 0;
    while i < n
        invariant
            n == attrs@.len(),
            i <= n,
            first_marker(attrs@, i as int) is None,
        decreases n - i,
    {
        if attrs[i] == AttrKind::SafeInner {
            proof {
                lemma_first_marker_prefix(attrs@, i + 1, n as int);
            }
            return Some(i);
        }
        i += 1;
    }
    None
}

/// Plans the split: `Ok(None)` where there is no `#[safe_inner]`, and the
/// function stays as it is.
pub fn plan_safe_inner(attrs: &[AttrKind], is_unsafe: bool, ident: &str) -> (r: Result<Option<SafeInnerPlan>, NotUnsafe>)
    ensures
        match first_marker(attrs@, attrs@.len() as int) {
            None => r matches Ok(None),
            Some(i) => if !is_unsafe {
                r == Err::<Option<SafeInnerPlan>, NotUnsafe>(NotUnsafe { attr: i as usize })
            } else {
                r matches Ok(Some(p)) && p.marker == i && as_ints(p.unsafe_attrs@) == all_but(attrs@.len() as int, i)
                    && as_ints(p.safe_attrs@) == cfg_indices(attrs@, attrs@.len() as int)
                    && p.safe_name@ == "__safe_inner_"@ + ident@
            },
        },
{
    let n = attrs.len();
    let m = match find_marker(attrs) {
        None => {
            return Ok(None);
        },
        Some(m) => m,
    };
    if !is_unsafe {
        return Err(NotUnsafe { attr: m });
    }
    let mut unsafe_attrs: Vec<usize> = Vec::new();
    let mut safe_attrs: Vec<usize> = Vec::new();
    let mut k: usize = 0;
    assert(as_ints(unsafe_attrs@) =~= Seq::<int>::empty());
    assert(as_ints(safe_attrs@) =~= Seq::<int>::empty());
    while k < n
        invariant
            n == attrs@.len(),
            k <= n,
            as_ints(unsafe_attrs@) == all_but(k as int, m as int),
            as_ints(safe_attrs@) == cfg_indices(attrs@, k as int),
        decreases n - k,
    {
        if k != m {
            let ghost before = as_ints(unsafe_attrs@);
            unsafe_attrs.push(k);
            assert(as_ints(unsafe_attrs@) =~= before.push(k as int));
        }
        if attrs[k] == AttrKind::Cfg {
            let ghost before = as_ints(safe_attrs@);
            safe_attrs.push(k);
            assert(as_ints(safe_attrs@) =~= before.push(k as int));
        }
        k += 1;
    }
    let mut safe_name = String::new();
    append_str(&mut safe_name, "__safe_inner_");
    append_str(&mut safe_name, ident);
    Ok(Some(SafeInnerPlan { marker: m, unsafe_attrs, safe_attrs, safe_name }))
}

} // verus!
