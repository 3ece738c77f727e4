//! The dimensional algebra registry: canonical exponent-vector
//! representations of units and dimensions, and the append-only store of
//! declared base and derived entries.

use vstd::prelude::*;

verus! {

use vstd::string::StrSliceExecFns;

/// Lexicographic order on names, by character code point. This is the
/// canonical sort order of base representation components.
pub open spec fn lex_lt(a: Seq<char>, b: Seq<char>) -> bool
    decreases a.len(),
{
    if b.len() == 0 {
        false
    } else if a.len() == 0 {
        true
    } else if a[0] == b[0] {
        lex_lt(a.drop_first(), b.drop_first())
    } else {
        (a[0] as u32) < (b[0] as u32)
    }
}

/// The lexicographic order is irreflexive.
pub proof fn lemma_lex_lt_irreflexive(a: Seq<char>)
    ensures
        !lex_lt(a, a),
    decreases a.len(),
{
    if a.len() > 0 {
        lemma_lex_lt_irreflexive(a.drop_first());
    }
}

/// Distinct characters have distinct code points.
proof fn lemma_char_cast_injective(c1: char, c2: char)
    requires
        c1 != c2,
    ensures
        c1 as u32 != c2 as u32,
{
}

/// The lexicographic order is total: two names are ordered or equal.
pub proof fn lemma_lex_lt_total(a: Seq<char>, b: Seq<char>)
    ensures
        lex_lt(a, b) || lex_lt(b, a) || a == b,
    decreases a.len(),
{
    if a.len() == 0 && b.len() == 0 {
        assert(a =~= b);
    } else if a.len() == 0 {
        assert(lex_lt(a, b));
    } else if b.len() == 0 {
        assert(lex_lt(b, a));
    } else if a[0] == b[0] {
        lemma_lex_lt_total(a.drop_first(), b.drop_first());
        if lex_lt(a.drop_first(), b.drop_first()) {
            assert(lex_lt(a, b));
        } else if lex_lt(b.drop_first(), a.drop_first()) {
            assert(lex_lt(b, a));
        } else {
            assert(a.len() == b.len());
            assert forall|i: int| 0 <= i < a.len() implies a[i] == b[i] by {
                if i > 0 {
                    assert(a[i] == a.drop_first()[i - 1]);
                    assert(b[i] == b.drop_first()[i - 1]);
                }
            }
            assert(a =~= b);
        }
    } else {
        lemma_char_cast_injective(a[0], b[0]);
        assert((a[0] as u32) != (b[0] as u32));
        if (a[0] as u32) < (b[0] as u32) {
            assert(lex_lt(a, b));
        } else {
            assert(lex_lt(b, a));
        }
    }
}

/// The lexicographic order is transitive.
pub proof fn lemma_lex_lt_transitive(a: Seq<char>, b: Seq<char>, c: Seq<char>)
    requires
        lex_lt(a, b),
        lex_lt(b, c),
    ensures
        lex_lt(a, c),
    decreases a.len(),
{
    if a.len() > 0 && b.len() > 0 && c.len() > 0 && a[0] == b[0] && b[0] == c[0] {
        lemma_lex_lt_transitive(a.drop_first(), b.drop_first(), c.drop_first());
    }
}

/// A common prefix does not decide the order: it is decided by the suffixes.
pub proof fn lemma_lex_lt_common_prefix(a: Seq<char>, b: Seq<char>, i: int)
    requires
        0 <= i <= a.len(),
        0 <= i <= b.len(),
        forall|j: int| 0 <= j < i ==> a[j] == b[j],
    ensures
        lex_lt(a, b) == lex_lt(a.skip(i), b.skip(i)),
    decreases i,
{
    if i == 0 {
        assert(a.skip(0) =~= a);
        assert(b.skip(0) =~= b);
    } else {
        assert(a.drop_first().skip(i - 1) =~= a.skip(i));
        assert(b.drop_first().skip(i - 1) =~= b.skip(i));
        lemma_lex_lt_common_prefix(a.drop_first(), b.drop_first(), i - 1);
    }
}

/// Whether `a` comes strictly before `b` in the canonical name order.
pub fn str_lt(a: &str, b: &str) -> (r: bool)
    ensures
        r == lex_lt(a@, b@),
{
    let a_len = a.unicode_len();
    let b_len = b.unicode_len();
    let mut i: usize = 0;
    while i < a_len && i < b_len
        invariant
            0 <= i <= a_len,
            0 <= i <= b_len,
            a_len == a@.len(),
            b_len == b@.len(),
            forall|j: int| 0 <= j < i ==> a@[j] == b@[j],
        decreases a_len - i,
    {
        let ca = a.get_char(i);
        let cb = b.get_char(i);
        if ca != cb {
            proof {
                lemma_lex_lt_common_prefix(a@, b@, i as int);
            }
            return (ca as u32) < (cb as u32);
        }
        i += 1;
    }
    proof {
        lemma_lex_lt_common_prefix(a@, b@, i as int);
    }
    i < b_len
}

/// The error taxonomy of the registry: a duplicate declaration, or a
/// reference to an undeclared entry. Both are deterministic, user-facing
/// compile errors.
#[derive(Clone, Debug, PartialEq)]
pub enum RegistryError {
    EntryExists(String),
    UnknownEntry(String),
}

/// An alternate identity for a base dimension: its index in the list of
/// base entries, for interning base names so that comparisons become
/// constant-time index comparisons.
#[derive(Debug, Clone, Copy, PartialEq, Eq, Structural)]
pub struct BaseIndex(pub isize);

/// The canonical exponent-vector form of a unit or dimension: a list of
/// (base entry name, integer exponent) pairs. Two representations of the
/// same physical dimension compare structurally equal once canonicalized by
/// `merge_base_representations`: sorted by name, no zero exponents.
#[derive(Debug, PartialEq)]
pub struct BaseRepresentation {
    pub components: Vec<(String, i32)>,
}

/// Model of a component list: names become character sequences, exponents
/// become unbounded integers.
pub open spec fn comps_view(cs: Seq<(String, i32)>) -> Seq<(Seq<char>, int)> {
    Seq::new(cs.len(), |i: int| (cs[i].0@, cs[i].1 as int))
}

impl View for BaseRepresentation {
    type V = Seq<(Seq<char>, int)>;

    open spec fn view(&self) -> Seq<(Seq<char>, int)> {
        comps_view(self.components@)
    }
}

/// The exponent of `name` in a component list: the sum over every component
/// carrying that name, 0 when absent.
pub open spec fn exp_in(s: Seq<(Seq<char>, int)>, name: Seq<char>) -> int
    decreases s.len(),
{
    if s.len() == 0 {
        0
    } else {
        (if s[0].0 == name {
            s[0].1
        } else {
            0
        }) + exp_in(s.drop_first(), name)
    }
}

/// A component list is canonical when its names are strictly sorted in the
/// canonical order (hence unique) and no exponent is zero.
pub open spec fn canonical(s: Seq<(Seq<char>, int)>) -> bool {
    (forall|i: int, j: int| 0 <= i < j < s.len() ==> lex_lt(s[i].0, s[j].0)) && (forall|i: int|
        0 <= i < s.len() ==> s[i].1 != 0)
}

/// The model of `invert`: every exponent negated.
pub open spec fn invert_rep(s: Seq<(Seq<char>, int)>) -> Seq<(Seq<char>, int)> {
    Seq::new(s.len(), |i: int| (s[i].0, -s[i].1))
}

/// Exponents add over concatenation.
pub proof fn lemma_exp_in_concat(a: Seq<(Seq<char>, int)>, b: Seq<(Seq<char>, int)>, n: Seq<char>)
    ensures
        exp_in(a + b, n) == exp_in(a, n) + exp_in(b, n),
    decreases a.len(),
{
    if a.len() == 0 {
        assert(a + b =~= b);
    } else {
        assert((a + b).drop_first() =~= a.drop_first() + b);
        lemma_exp_in_concat(a.drop_first(), b, n);
    }
}

/// A name that appears in no component has exponent 0.
pub proof fn lemma_exp_in_absent(s: Seq<(Seq<char>, int)>, n: Seq<char>)
    requires
        forall|i: int| 0 <= i < s.len() ==> s[i].0 != n,
    ensures
        exp_in(s, n) == 0,
    decreases s.len(),
{
    if s.len() > 0 {
        lemma_exp_in_absent(s.drop_first(), n);
    }
}

/// A name with a nonzero exponent appears in some component.
pub proof fn lemma_exp_in_nonzero_present(s: Seq<(Seq<char>, int)>, n: Seq<char>)
    requires
        exp_in(s, n) != 0,
    ensures
        exists|i: int| 0 <= i < s.len() && s[i].0 == n,
{
    if forall|i: int| 0 <= i < s.len() ==> s[i].0 != n {
        lemma_exp_in_absent(s, n);
    }
}

/// In a canonical list the exponent of a present name is exactly that
/// component's exponent.
pub proof fn lemma_exp_in_at(s: Seq<(Seq<char>, int)>, k: int, n: Seq<char>)
    requires
        canonical(s),
        0 <= k < s.len(),
        s[k].0 == n,
    ensures
        exp_in(s, n) == s[k].1,
    decreases s.len(),
{
    assert forall|i: int| 0 <= i < s.len() && i != k implies s[i].0 != n by {
        if i < k {
            lemma_lex_lt_irreflexive(n);
            assert(lex_lt(s[i].0, s[k].0));
        } else {
            lemma_lex_lt_irreflexive(n);
            assert(lex_lt(s[k].0, s[i].0));
        }
    }
    if k == 0 {
        lemma_exp_in_absent(s.drop_first(), n);
    } else {
        assert(canonical(s.drop_first())) by {
            assert(forall|i: int, j: int|
                0 <= i < j < s.drop_first().len() ==> lex_lt(
                    s.drop_first()[i].0,
                    s.drop_first()[j].0,
                ));
        }
        lemma_exp_in_at(s.drop_first(), k - 1, n);
        assert(s[0].0 != n);
    }
}

/// Inversion negates every exponent.
pub proof fn lemma_exp_in_invert(s: Seq<(Seq<char>, int)>, n: Seq<char>)
    ensures
        exp_in(invert_rep(s), n) == -exp_in(s, n),
    decreases s.len(),
{
    if s.len() > 0 {
        assert(invert_rep(s).drop_first() =~= invert_rep(s.drop_first()));
        lemma_exp_in_invert(s.drop_first(), n);
    }
}

/// The exponent a single component contributes.
pub proof fn lemma_exp_in_singleton(x: (Seq<char>, int), n: Seq<char>)
    ensures
        exp_in(seq![x], n) == (if x.0 == n {
            x.1
        } else {
            0
        }),
{
    assert(seq![x].drop_first() =~= Seq::<(Seq<char>, int)>::empty());
    assert(exp_in(Seq::<(Seq<char>, int)>::empty(), n) == 0);
}

/// Removing a component subtracts its exponent from its name alone.
pub proof fn lemma_exp_in_remove(s: Seq<(Seq<char>, int)>, k: int)
    requires
        0 <= k < s.len(),
    ensures
        forall|n: Seq<char>|
            exp_in(s.remove(k), n) == exp_in(s, n) + (if n == s[k].0 {
                -s[k].1
            } else {
                0
            }),
{
    let left = s.take(k);
    let right = s.skip(k + 1);
    assert(s =~= left + (seq![s[k]] + right));
    assert(s.remove(k) =~= left + right);
    assert forall|n: Seq<char>|
        exp_in(s.remove(k), n) == exp_in(s, n) + (if n == s[k].0 {
            -s[k].1
        } else {
            0
        }) by {
        lemma_exp_in_concat(left, seq![s[k]] + right, n);
        lemma_exp_in_concat(seq![s[k]], right, n);
        lemma_exp_in_concat(left, right, n);
        lemma_exp_in_singleton(s[k], n);
    }
}

/// Removing a component keeps a canonical list canonical.
pub proof fn lemma_canonical_remove(s: Seq<(Seq<char>, int)>, k: int)
    requires
        canonical(s),
        0 <= k < s.len(),
    ensures
        canonical(s.remove(k)),
{
    let rem = s.remove(k);
    assert forall|i: int, j: int| 0 <= i < j < rem.len() implies lex_lt(rem[i].0, rem[j].0) by {
        assert(rem[i] == (if i < k {
            s[i]
        } else {
            s[i + 1]
        }));
        assert(rem[j] == (if j < k {
            s[j]
        } else {
            s[j + 1]
        }));
    }
    assert forall|i: int| 0 <= i < rem.len() implies rem[i].1 != 0 by {
        assert(rem[i] == (if i < k {
            s[i]
        } else {
            s[i + 1]
        }));
    }
}

/// Replacing a component by one with the same name shifts that name's
/// exponent by the difference, and keeps every name in place.
pub proof fn lemma_exp_in_replace(s: Seq<(Seq<char>, int)>, k: int, x: (Seq<char>, int))
    requires
        0 <= k < s.len(),
        x.0 == s[k].0,
    ensures
        forall|n: Seq<char>|
            exp_in(s.update(k, x), n) == exp_in(s, n) + (if n == x.0 {
                x.1 - s[k].1
            } else {
                0
            }),
        forall|m: int| 0 <= m < s.len() ==> s.update(k, x)[m].0 == s[m].0,
{
    let left = s.take(k);
    let right = s.skip(k + 1);
    assert(s =~= left + (seq![s[k]] + right));
    assert(s.update(k, x) =~= left + (seq![x] + right));
    assert forall|n: Seq<char>|
        exp_in(s.update(k, x), n) == exp_in(s, n) + (if n == x.0 {
            x.1 - s[k].1
        } else {
            0
        }) by {
        lemma_exp_in_concat(left, seq![s[k]] + right, n);
        lemma_exp_in_concat(seq![s[k]], right, n);
        lemma_exp_in_concat(left, seq![x] + right, n);
        lemma_exp_in_concat(seq![x], right, n);
        lemma_exp_in_singleton(s[k], n);
        lemma_exp_in_singleton(x, n);
    }
}

/// Inserting a component adds its exponent to its name alone.
pub proof fn lemma_exp_in_insert(s: Seq<(Seq<char>, int)>, k: int, x: (Seq<char>, int))
    requires
        0 <= k <= s.len(),
    ensures
        forall|n: Seq<char>|
            exp_in(s.insert(k, x), n) == exp_in(s, n) + (if n == x.0 {
                x.1
            } else {
                0
            }),
{
    let left = s.take(k);
    let right = s.skip(k);
    assert(s =~= left + right);
    assert(s.insert(k, x) =~= left + (seq![x] + right));
    assert forall|n: Seq<char>|
        exp_in(s.insert(k, x), n) == exp_in(s, n) + (if n == x.0 {
            x.1
        } else {
            0
        }) by {
        lemma_exp_in_concat(left, right, n);
        lemma_exp_in_concat(left, seq![x] + right, n);
        lemma_exp_in_concat(seq![x], right, n);
        lemma_exp_in_singleton(x, n);
    }
}

/// Inserting a nonzero component at its sorted position keeps a canonical
/// list canonical.
pub proof fn lemma_canonical_insert(s: Seq<(Seq<char>, int)>, k: int, x: (Seq<char>, int))
    requires
        canonical(s),
        0 <= k <= s.len(),
        x.1 != 0,
        forall|m: int| 0 <= m < k ==> lex_lt(s[m].0, x.0),
        forall|m: int| k <= m < s.len() ==> lex_lt(x.0, s[m].0),
    ensures
        canonical(s.insert(k, x)),
{
    let ins = s.insert(k, x);
    assert forall|i: int, j: int| 0 <= i < j < ins.len() implies lex_lt(ins[i].0, ins[j].0) by {
        assert(ins[i] == (if i < k {
            s[i]
        } else if i == k {
            x
        } else {
            s[i - 1]
        }));
        assert(ins[j] == (if j < k {
            s[j]
        } else if j == k {
            x
        } else {
            s[j - 1]
        }));
    }
    assert forall|i: int| 0 <= i < ins.len() implies ins[i].1 != 0 by {
        assert(ins[i] == (if i < k {
            s[i]
        } else if i == k {
            x
        } else {
            s[i - 1]
        }));
    }
}

/// The canonical form is unique: two canonical component lists assigning
/// the same exponent to every name are equal.
pub proof fn lemma_canonical_unique(s1: Seq<(Seq<char>, int)>, s2: Seq<(Seq<char>, int)>)
    requires
        canonical(s1),
        canonical(s2),
        forall|n: Seq<char>| exp_in(s1, n) == exp_in(s2, n),
    ensures
        s1 == s2,
    decreases s1.len(),
{
    if s1.len() == 0 {
        if s2.len() > 0 {
            lemma_exp_in_at(s2, 0, s2[0].0);
            lemma_exp_in_absent(s1, s2[0].0);
        }
        assert(s1 =~= s2);
    } else if s2.len() == 0 {
        lemma_exp_in_at(s1, 0, s1[0].0);
        lemma_exp_in_absent(s2, s1[0].0);
        assert(s1 =~= s2);
    } else {
        // The heads carry the same name: were one strictly smaller, its name
        // would be absent from the other list, giving exponent 0 there.
        let n1 = s1[0].0;
        let n2 = s2[0].0;
        lemma_lex_lt_total(n1, n2);
        if lex_lt(n1, n2) {
            assert forall|i: int| 0 <= i < s2.len() implies s2[i].0 != n1 by {
                lemma_lex_lt_irreflexive(s2[i].0);
                if i > 0 {
                    lemma_lex_lt_transitive(n1, n2, s2[i].0);
                }
            }
            lemma_exp_in_absent(s2, n1);
            lemma_exp_in_at(s1, 0, n1);
        } else if lex_lt(n2, n1) {
            assert forall|i: int| 0 <= i < s1.len() implies s1[i].0 != n2 by {
                lemma_lex_lt_irreflexive(s1[i].0);
                if i > 0 {
                    lemma_lex_lt_transitive(n2, n1, s1[i].0);
                }
            }
            lemma_exp_in_absent(s1, n2);
            lemma_exp_in_at(s2, 0, n2);
        }
        assert(n1 == n2);
        lemma_exp_in_at(s1, 0, n1);
        lemma_exp_in_at(s2, 0, n1);
        assert(s1[0].1 == s2[0].1);
        let t1 = s1.drop_first();
        let t2 = s2.drop_first();
        assert(canonical(t1)) by {
            assert(forall|i: int, j: int| 0 <= i < j < t1.len() ==> lex_lt(t1[i].0, t1[j].0));
        }
        assert(canonical(t2)) by {
            assert(forall|i: int, j: int| 0 <= i < j < t2.len() ==> lex_lt(t2[i].0, t2[j].0));
        }
        assert forall|n: Seq<char>| exp_in(t1, n) == exp_in(t2, n) by {
            if n == n1 {
                assert forall|i: int| 0 <= i < t1.len() implies t1[i].0 != n by {
                    lemma_lex_lt_irreflexive(t1[i].0);
                    assert(lex_lt(s1[0].0, s1[i + 1].0));
                }
                assert forall|i: int| 0 <= i < t2.len() implies t2[i].0 != n by {
                    lemma_lex_lt_irreflexive(t2[i].0);
                    assert(lex_lt(s2[0].0, s2[i + 1].0));
                }
                lemma_exp_in_absent(t1, n);
                lemma_exp_in_absent(t2, n);
            } else {
                assert(exp_in(s1, n) == exp_in(t1, n));
                assert(exp_in(s2, n) == exp_in(t2, n));
            }
        }
        lemma_canonical_unique(t1, t2);
        assert(s1.len() == s2.len());
        assert forall|i: int| 0 <= i < s1.len() implies s1[i] == s2[i] by {
            if i > 0 {
                assert(s1[i] == t1[i - 1]);
                assert(s2[i] == t2[i - 1]);
            }
        }
        assert(s1 =~= s2);
    }
}

/// Identity law: merging with `scalar()` leaves a canonical representation
/// unchanged, in either operand order. Any canonical result `m` whose
/// exponents are those of the empty representation plus those of `r` — which
/// is what the contract of `merge_base_representations` guarantees for
/// `merge(scalar(), r)` and for `merge(r, scalar())` — is `r` itself.
pub proof fn lemma_merge_scalar_identity(r: Seq<(Seq<char>, int)>, m: Seq<(Seq<char>, int)>)
    requires
        canonical(r),
        canonical(m),
        forall|n: Seq<char>|
            exp_in(m, n) == exp_in(Seq::<(Seq<char>, int)>::empty(), n) + exp_in(r, n),
    ensures
        m == r,
{
    assert forall|n: Seq<char>| exp_in(m, n) == exp_in(r, n) by {
        assert(exp_in(Seq::<(Seq<char>, int)>::empty(), n) == 0);
    }
    lemma_canonical_unique(m, r);
}

/// Inverse law: merging a canonical representation with its inversion
/// reduces to `scalar()`. Any canonical result `m` whose exponents are those
/// of `r` plus those of `r.invert()` — what the contract of
/// `merge_base_representations` guarantees for `merge(r, r.invert())` — is
/// the empty representation.
pub proof fn lemma_merge_inverse(r: Seq<(Seq<char>, int)>, m: Seq<(Seq<char>, int)>)
    requires
        canonical(r),
        canonical(m),
        forall|n: Seq<char>| exp_in(m, n) == exp_in(r, n) + exp_in(invert_rep(r), n),
    ensures
        m == Seq::<(Seq<char>, int)>::empty(),
{
    assert forall|n: Seq<char>| exp_in(m, n) == exp_in(Seq::<(Seq<char>, int)>::empty(), n) by {
        lemma_exp_in_invert(r, n);
        assert(exp_in(Seq::<(Seq<char>, int)>::empty(), n) == 0);
    }
    lemma_canonical_unique(m, Seq::<(Seq<char>, int)>::empty());
}

/// Commutativity law: the two merge orders of `a` and `b` yield the same
/// canonical representation, since exponent sums commute and the canonical
/// form is unique.
pub proof fn lemma_merge_commutative(
    a: Seq<(Seq<char>, int)>,
    b: Seq<(Seq<char>, int)>,
    m1: Seq<(Seq<char>, int)>,
    m2: Seq<(Seq<char>, int)>,
)
    requires
        canonical(m1),
        canonical(m2),
        forall|n: Seq<char>| exp_in(m1, n) == exp_in(a, n) + exp_in(b, n),
        forall|n: Seq<char>| exp_in(m2, n) == exp_in(b, n) + exp_in(a, n),
    ensures
        m1 == m2,
{
    lemma_canonical_unique(m1, m2);
}

/// Associativity law: merging `a`, `b` and `c` in either grouping yields the
/// same canonical representation, since exponent sums associate and the
/// canonical form is unique.
pub proof fn lemma_merge_associative(
    a: Seq<(Seq<char>, int)>,
    b: Seq<(Seq<char>, int)>,
    c: Seq<(Seq<char>, int)>,
    ab: Seq<(Seq<char>, int)>,
    bc: Seq<(Seq<char>, int)>,
    m1: Seq<(Seq<char>, int)>,
    m2: Seq<(Seq<char>, int)>,
)
    requires
        canonical(m1),
        canonical(m2),
        forall|n: Seq<char>| exp_in(ab, n) == exp_in(a, n) + exp_in(b, n),
        forall|n: Seq<char>| exp_in(bc, n) == exp_in(b, n) + exp_in(c, n),
        forall|n: Seq<char>| exp_in(m1, n) == exp_in(ab, n) + exp_in(c, n),
        forall|n: Seq<char>| exp_in(m2, n) == exp_in(a, n) + exp_in(bc, n),
    ensures
        m1 == m2,
{
    lemma_canonical_unique(m1, m2);
}

impl Clone for BaseRepresentation {
    /// A clone is indistinguishable from the original in every contract.
    fn clone(&self) -> (res: BaseRepresentation)
        ensures
            res@ == self@,
    {
        let mut components: Vec<(String, i32)> = Vec::new();
        let mut i: usize = 0;
        while i < self.components.len()
            invariant
                0 <= i <= self.components.len(),
                components@.len() == i,
                forall|j: int|
                    0 <= j < i ==> components@[j].0@ == self.components@[j].0@ && components@[j].1
                        == self.components@[j].1,
            decreases self.components.len() - i,
        {
            let name = self.components[i].0.clone();
            let exponent = self.components[i].1;
            components.push((name, exponent));
            i += 1;
        }
        let res = BaseRepresentation { components };
        proof {
            assert(res@ =~= self@);
        }
        res
    }
}

impl BaseRepresentation {
    /// Builds a representation from an explicit component list, which the
    /// caller need not have canonicalized.
    pub fn from_components(components: &[(String, i32)]) -> (r: Self)
        ensures
            r@ == comps_view(components@),
    {
        let mut owned: Vec<(String, i32)> = Vec::new();
        let mut i: usize = 0;
        while i < components.len()
            invariant
                0 <= i <= components@.len(),
                owned@.len() == i,
                forall|j: int|
                    0 <= j < i ==> owned@[j].0@ == components@[j].0@ && owned@[j].1
                        == components@[j].1,
            decreases components@.len() - i,
        {
            let name = components[i].0.clone();
            let exponent = components[i].1;
            owned.push((name, exponent));
            i += 1;
        }
        let r = BaseRepresentation { components: owned };
        proof {
            assert(r@ =~= comps_view(components@));
        }
        r
    }

    /// The empty representation: the multiplicative identity, dimensionless.
    pub fn scalar() -> (r: BaseRepresentation)
        ensures
            r@ == Seq::<(Seq<char>, int)>::empty(),
            canonical(r@),
    {
        let r = BaseRepresentation { components: Vec::new() };
        proof {
            assert(r@ =~= Seq::<(Seq<char>, int)>::empty());
        }
        r
    }

    /// The reciprocal: every exponent negated.
    pub fn invert(&self) -> (r: BaseRepresentation)
        requires
            forall|i: int| 0 <= i < self@.len() ==> self@[i].1 != i32::MIN,
        ensures
            r@ == invert_rep(self@),
            canonical(self@) ==> canonical(r@),
    {
        let mut components: Vec<(String, i32)> = Vec::new();
        let mut i: usize = 0;
        while i < self.components.len()
            invariant
                0 <= i <= self.components.len(),
                components@.len() == i,
                forall|j: int| 0 <= j < self@.len() ==> self@[j].1 != i32::MIN,
                self@.len() == self.components@.len(),
                forall|j: int|
                    0 <= j < i ==> components@[j].0@ == self.components@[j].0@ && components@[j].1
                        as int == -(self.components@[j].1 as int),
            decreases self.components.len() - i,
        {
            proof {
                assert(self@[i as int].1 == self.components@[i as int].1 as int);
                assert(self@[i as int].1 != i32::MIN);
            }
            let name = self.components[i].0.clone();
            let exponent = self.components[i].1;
            components.push((name, -exponent));
            i += 1;
        }
        let r = BaseRepresentation { components };
        proof {
            assert(r@ =~= invert_rep(self@));
        }
        r
    }

    /// Folds an arbitrary component list into canonical form: the same
    /// exponent for every name, names strictly sorted, zero exponents
    /// dropped. This admits representations built by `from_components` from
    /// uncanonicalized input into the algebra. The bound on the running
    /// per-name sums over every prefix is a machine limit.
    pub fn canonicalize(&self) -> (r: BaseRepresentation)
        requires
            forall|j: int, n: Seq<char>|
                0 <= j <= self@.len() ==> i32::MIN <= #[trigger] exp_in(self@.take(j), n)
                    <= i32::MAX,
        ensures
            canonical(r@),
            forall|n: Seq<char>| exp_in(r@, n) == exp_in(self@, n),
    {
        let mut acc = BaseRepresentation { components: Vec::new() };
        let mut j: usize = 0;
        proof {
            assert(self@.take(0) =~= Seq::<(Seq<char>, int)>::empty());
            assert(acc@ =~= Seq::<(Seq<char>, int)>::empty());
            assert forall|n: Seq<char>|
                exp_in(acc@, n) == exp_in(self@.take(0), n) by {
                assert(exp_in(Seq::<(Seq<char>, int)>::empty(), n) == 0);
            }
        }
        while j < self.components.len()
            invariant
                0 <= j <= self.components.len(),
                self@.len() == self.components@.len(),
                forall|j2: int, n: Seq<char>|
                    0 <= j2 <= self@.len() ==> i32::MIN <= #[trigger] exp_in(self@.take(j2), n)
                        <= i32::MAX,
                canonical(acc@),
                forall|n: Seq<char>| exp_in(acc@, n) == exp_in(self@.take(j as int), n),
            decreases self.components.len() - j,
        {
            let ghost name_model = self@[j as int].0;
            let ghost comp_exp = self@[j as int].1;
            let ghost acc_before = acc@;
            proof {
                assert(self@.take(j as int + 1) =~= self@.take(j as int) + seq![
                    self@[j as int],
                ]);
                assert forall|n: Seq<char>|
                    exp_in(self@.take(j as int + 1), n) == exp_in(self@.take(j as int), n) + (
                    if n == name_model {
                        comp_exp
                    } else {
                        0
                    }) by {
                    lemma_exp_in_concat(self@.take(j as int), seq![self@[j as int]], n);
                    lemma_exp_in_singleton(self@[j as int], n);
                }
            }
            // Find the insertion or update position for the current name.
            let mut k: usize = 0;
            while k < acc.components.len() && str_lt(
                acc.components[k].0.as_str(),
                self.components[j].0.as_str(),
            )
                invariant
                    0 <= k <= acc.components.len(),
                    0 <= j < self.components.len(),
                    acc@.len() == acc.components@.len(),
                    self@.len() == self.components@.len(),
                    name_model == self@[j as int].0,
                    forall|m: int| 0 <= m < k ==> lex_lt(acc@[m].0, name_model),
                decreases acc.components.len() - k,
            {
                k += 1;
            }
            let found = k < acc.components.len() && acc.components[k].0 == self.components[j].0;
            if found {
                proof {
                    assert(acc_before[k as int].0 == name_model);
                    lemma_exp_in_at(acc_before, k as int, name_model);
                    assert(exp_in(acc_before, name_model) == exp_in(
                        self@.take(j as int),
                        name_model,
                    ));
                    assert(i32::MIN <= exp_in(self@.take(j as int + 1), name_model) <= i32::MAX);
                }
                let existing = acc.components[k].1;
                let summed = existing + self.components[j].1;
                if summed == 0 {
                    acc.components.remove(k);
                    proof {
                        lemma_exp_in_remove(acc_before, k as int);
                        lemma_canonical_remove(acc_before, k as int);
                        assert(acc@ == acc_before.remove(k as int));
                        assert forall|n: Seq<char>|
                            exp_in(acc@, n) == exp_in(self@.take(j as int + 1), n) by {
                            assert(exp_in(acc@, n) == exp_in(acc_before, n) + (if n == name_model {
                                -acc_before[k as int].1
                            } else {
                                0
                            }));
                        }
                    }
                } else {
                    let removed = acc.components.remove(k);
                    acc.components.insert(k, (removed.0, summed));
                    proof {
                        let replaced = acc_before.update(
                            k as int,
                            (name_model, summed as int),
                        );
                        assert(acc@ =~= replaced);
                        lemma_exp_in_replace(acc_before, k as int, (name_model, summed as int));
                        assert(canonical(acc@)) by {
                            assert(forall|m: int|
                                0 <= m < replaced.len() ==> replaced[m].0 == acc_before[m].0);
                            assert(forall|i2: int, j2: int|
                                0 <= i2 < j2 < replaced.len() ==> lex_lt(
                                    replaced[i2].0,
                                    replaced[j2].0,
                                ));
                            assert(forall|m: int| 0 <= m < replaced.len() ==> replaced[m].1 != 0);
                        }
                        assert forall|n: Seq<char>|
                            exp_in(acc@, n) == exp_in(self@.take(j as int + 1), n) by {
                            assert(exp_in(acc@, n) == exp_in(acc_before, n) + (if n == name_model {
                                summed - acc_before[k as int].1
                            } else {
                                0
                            }));
                        }
                    }
                }
            } else {
                proof {
                    if k < acc_before.len() {
                        lemma_lex_lt_total(acc_before[k as int].0, name_model);
                    }
                    assert forall|m: int| k as int <= m < acc_before.len() implies lex_lt(
                        name_model,
                        acc_before[m].0,
                    ) by {
                        if m > k as int {
                            lemma_lex_lt_transitive(
                                name_model,
                                acc_before[k as int].0,
                                acc_before[m].0,
                            );
                        }
                    }
                    assert forall|m: int| 0 <= m < acc_before.len() implies acc_before[m].0
                        != name_model by {
                        lemma_lex_lt_irreflexive(name_model);
                        if m < k as int {
                            assert(lex_lt(acc_before[m].0, name_model));
                        } else {
                            assert(lex_lt(name_model, acc_before[m].0));
                        }
                    }
                    lemma_exp_in_absent(acc_before, name_model);
                }
                let exponent = self.components[j].1;
                if exponent != 0 {
                    let name_owned = self.components[j].0.clone();
                    acc.components.insert(k, (name_owned, exponent));
                    proof {
                        assert(acc@ =~= acc_before.insert(k as int, (name_model, comp_exp)));
                        lemma_exp_in_insert(acc_before, k as int, (name_model, comp_exp));
                        lemma_canonical_insert(acc_before, k as int, (name_model, comp_exp));
                        assert forall|n: Seq<char>|
                            exp_in(acc@, n) == exp_in(self@.take(j as int + 1), n) by {
                            assert(exp_in(acc@, n) == exp_in(acc_before, n) + (if n == name_model {
                                comp_exp
                            } else {
                                0
                            }));
                        }
                    }
                } else {
                    proof {
                        assert(comp_exp == 0);
                        assert forall|n: Seq<char>|
                            exp_in(acc@, n) == exp_in(self@.take(j as int + 1), n) by {
                            assert(exp_in(acc@, n) == exp_in(self@.take(j as int), n));
                        }
                    }
                }
            }
            j += 1;
        }
        proof {
            assert(self@.take(self.components@.len() as int) =~= self@);
        }
        acc
    }
}

/// The capability injected into a `Registry`: turns one domain's derived
/// unit expression into a canonical base representation, with read access to
/// the registry being built so the expression can reference previously
/// declared entries.
pub trait RegistryAdapter: Sized + Default {
    type DerivedExpression;

    type Metadata;

    /// Computes the canonical base representation of `expr`, or fails with
    /// a registry error (for instance when `expr` references an undeclared
    /// entry).
    fn expression_to_base_representation(
        registry: &Registry<Self>,
        expr: &Self::DerivedExpression,
    ) -> (r: Result<BaseRepresentation, RegistryError>)
        ensures
            (r matches Ok(br) ==> canonical(br@)),
    ;
}

/// The append-only store of declared dimensions and units: an ordered list
/// of base entries (declaration order preserved) and a memoized map from
/// derived entry name to its canonical base representation, computed once at
/// registration time.
pub struct Registry<A: RegistryAdapter> {
    base_entries: Vec<(String, A::Metadata)>,
    derived_entries: Vec<(String, BaseRepresentation)>,
    adapter: core::marker::PhantomData<A>,
}

impl<A: RegistryAdapter> Registry<A> {
    /// The declared base entries, names with their metadata, in declaration
    /// order.
    pub closed spec fn bases(&self) -> Seq<(Seq<char>, A::Metadata)> {
        Seq::new(self.base_entries@.len(), |i: int| (self.base_entries@[i].0@, self.base_entries@[i].1))
    }

    /// The declared base entry names, in declaration order.
    pub open spec fn base_names(&self) -> Seq<Seq<char>> {
        self.bases().map_values(|p: (Seq<char>, A::Metadata)| p.0)
    }

    /// The memoized derived entries: name and canonical representation, in
    /// declaration order.
    pub closed spec fn derived(&self) -> Seq<(Seq<char>, Seq<(Seq<char>, int)>)> {
        Seq::new(
            self.derived_entries@.len(),
            |i: int| (self.derived_entries@[i].0@, self.derived_entries@[i].1@),
        )
    }

    /// The derived entry names.
    pub open spec fn derived_names(&self) -> Seq<Seq<char>> {
        self.derived().map_values(|p: (Seq<char>, Seq<(Seq<char>, int)>)| p.0)
    }

    /// The memoized representation of a derived entry name, if any.
    pub open spec fn derived_lookup(&self, name: Seq<char>) -> Option<Seq<(Seq<char>, int)>> {
        if exists|i: int| 0 <= i < self.derived().len() && self.derived()[i].0 == name {
            let i = choose|i: int| 0 <= i < self.derived().len() && self.derived()[i].0 == name;
            Option::Some(self.derived()[i].1)
        } else {
            Option::None
        }
    }

    /// Well-formed: derived entry names are unique and every memoized
    /// representation is canonical.
    pub open spec fn wf(&self) -> bool {
        (forall|i: int, j: int|
            0 <= i < j < self.derived().len() ==> self.derived()[i].0 != self.derived()[j].0)
            && (forall|i: int|
            0 <= i < self.derived().len() ==> canonical(self.derived()[i].1))
    }
}

impl<A: RegistryAdapter> Default for Registry<A> {
    /// The empty registry: no base entries, no derived entries.
    fn default() -> (r: Self)
        ensures
            r.bases() == Seq::<(Seq<char>, A::Metadata)>::empty(),
            r.derived() == Seq::<(Seq<char>, Seq<(Seq<char>, int)>)>::empty(),
            r.wf(),
    {
        let r = Registry {
            base_entries: Vec::new(),
            derived_entries: Vec::new(),
            adapter: core::marker::PhantomData,
        };
        proof {
            assert(r.bases() =~= Seq::<(Seq<char>, A::Metadata)>::empty());
            assert(r.derived() =~= Seq::<(Seq<char>, Seq<(Seq<char>, int)>)>::empty());
        }
        r
    }
}

impl<A: RegistryAdapter> Registry<A> {
    /// Registers a new independent base dimension. Fails with `EntryExists`
    /// when the name is already a base entry (the derived namespace is not
    /// consulted), leaving the registry unchanged.
    pub fn add_base_entry(&mut self, name: &str, metadata: A::Metadata) -> (r: Result<
        (),
        RegistryError,
    >)
        requires
            old(self).wf(),
        ensures
            final(self).wf(),
            old(self).base_names().contains(name@) ==> (r matches Err(e) && (e
                matches RegistryError::EntryExists(m) && m@ == name@)) && *final(self)
                == *old(self),
            !old(self).base_names().contains(name@) ==> r is Ok && final(self).bases()
                == old(self).bases().push((name@, metadata)) && final(self).derived()
                == old(self).derived(),
    {
        if self.is_base_entry(name) {
            return Result::Err(RegistryError::EntryExists(name.to_owned()));
        }
        let ghost old_bases = self.bases();
        self.base_entries.push((name.to_owned(), metadata));
        proof {
            assert(self.bases() =~= old_bases.push((name@, metadata)));
            assert(self.derived() =~= old(self).derived());
        }
        Result::Ok(())
    }

    /// Membership test against base entries only.
    pub fn is_base_entry(&self, name: &str) -> (r: bool)
        ensures
            r == self.base_names().contains(name@),
    {
        let owned = name.to_owned();
        let mut i: usize = 0;
        while i < self.base_entries.len()
            invariant
                0 <= i <= self.base_entries.len(),
                owned@ == name@,
                forall|j: int| 0 <= j < i ==> self.base_names()[j] != name@,
            decreases self.base_entries.len() - i,
        {
            if self.base_entries[i].0 == owned {
                proof {
                    assert(self.base_names()[i as int] == name@);
                }
                return true;
            }
            i += 1;
        }
        proof {
            if self.base_names().contains(name@) {
                let j = choose|j: int|
                    0 <= j < self.base_names().len() && self.base_names()[j] == name@;
                assert(self.base_names()[j] != name@);
            }
        }
        false
    }

    /// Membership test against derived entries only.
    fn is_derived_entry(&self, name: &str) -> (r: bool)
        ensures
            r == self.derived_names().contains(name@),
    {
        let owned = name.to_owned();
        let mut i: usize = 0;
        while i < self.derived_entries.len()
            invariant
                0 <= i <= self.derived_entries.len(),
                owned@ == name@,
                forall|j: int| 0 <= j < i ==> self.derived_names()[j] != name@,
            decreases self.derived_entries.len() - i,
        {
            if self.derived_entries[i].0 == owned {
                proof {
                    assert(self.derived_names()[i as int] == name@);
                }
                return true;
            }
            i += 1;
        }
        proof {
            if self.derived_names().contains(name@) {
                let j = choose|j: int|
                    0 <= j < self.derived_names().len() && self.derived_names()[j] == name@;
                assert(self.derived_names()[j] != name@);
            }
        }
        false
    }

    /// Memoizes an already computed canonical representation under `name`.
    /// Fails with `EntryExists` when the name is already a derived entry
    /// (the base namespace is not consulted), leaving the registry
    /// unchanged. This is the storage half of `add_derived_entry`, usable on
    /// its own when the caller has the representation in hand.
    pub fn insert_derived(&mut self, name: &str, representation: BaseRepresentation) -> (r:
        Result<(), RegistryError>)
        requires
            old(self).wf(),
            canonical(representation@),
        ensures
            final(self).wf(),
            old(self).derived_names().contains(name@) ==> (r matches Err(e) && (e
                matches RegistryError::EntryExists(m) && m@ == name@)) && *final(self)
                == *old(self),
            !old(self).derived_names().contains(name@) ==> r is Ok && final(self).derived()
                == old(self).derived().push((name@, representation@)) && final(self).bases()
                == old(self).bases(),
    {
        if self.is_derived_entry(name) {
            return Result::Err(RegistryError::EntryExists(name.to_owned()));
        }
        let ghost old_derived = self.derived();
        let ghost rep_view = representation@;
        self.derived_entries.push((name.to_owned(), representation));
        proof {
            assert(self.derived() =~= old_derived.push((name@, rep_view)));
            assert(self.bases() =~= old(self).bases());
            assert forall|i: int, j: int|
                0 <= i < j < self.derived().len() implies self.derived()[i].0
                != self.derived()[j].0 by {
                if j == self.derived().len() - 1 {
                    assert(!old(self).derived_names().contains(name@));
                    assert(old(self).derived_names()[i] == old(self).derived()[i].0);
                }
            }
        }
        Result::Ok(())
    }

    /// Computes the canonical representation of `expression` through the
    /// adapter and memoizes it under `name`. Fails with `EntryExists` when
    /// the name is already a derived entry (the base namespace is not
    /// consulted; the adapter is not consulted either), and passes any
    /// adapter failure through; either way the registry is unchanged. On
    /// success the memoized representation is exactly what the adapter
    /// returned for this registry state and expression, and any passed-on
    /// error is one the adapter returned: both are stated through
    /// `call_ensures` of the adapter's method.
    pub fn add_derived_entry(
        &mut self,
        name: &str,
        expression: &A::DerivedExpression,
        metadata: A::Metadata,
    ) -> (r: Result<(), RegistryError>)
        requires
            old(self).wf(),
        ensures
            final(self).wf(),
            old(self).derived_names().contains(name@) ==> (r matches Err(e) && (e
                matches RegistryError::EntryExists(m) && m@ == name@)) && *final(self)
                == *old(self),
            !old(self).derived_names().contains(name@) ==> (match r {
                Result::Ok(_) => final(self).bases() == old(self).bases() && (exists|
                    reg: &Registry<A>,
                    rep: BaseRepresentation,
                |
                    *reg == *old(self) && #[trigger] call_ensures(
                        A::expression_to_base_representation,
                        (reg, expression),
                        Result::Ok(rep),
                    ) && canonical(rep@) && final(self).derived() == old(self).derived().push(
                        (name@, rep@),
                    )),
                Result::Err(e) => *final(self) == *old(self) && (exists|reg: &Registry<A>|
                    *reg == *old(self) && #[trigger] call_ensures(
                        A::expression_to_base_representation,
                        (reg, expression),
                        Result::<BaseRepresentation, RegistryError>::Err(e),
                    )),
            }),
    {
        let _ = metadata;
        if self.is_derived_entry(name) {
            return Result::Err(RegistryError::EntryExists(name.to_owned()));
        }
        let representation = match A::expression_to_base_representation(self, expression) {
            Result::Ok(rep) => rep,
            Result::Err(e) => {
                return Result::Err(e);
            },
        };
        self.insert_derived(name, representation)
    }

    /// Pure delegation to the adapter: the sole seam where domain-specific
    /// unit syntax enters the algebra. The result is exactly the adapter's,
    /// stated through `call_ensures` of the adapter's method.
    pub fn get_base_representation(&self, expression: &A::DerivedExpression) -> (r: Result<
        BaseRepresentation,
        RegistryError,
    >)
        ensures
            call_ensures(A::expression_to_base_representation, (self, expression), r),
            (r matches Ok(br) ==> canonical(br@)),
    {
        A::expression_to_base_representation(self, expression)
    }

    /// Symbolic multiplication: for every base present in either operand the
    /// exponents are summed (absence counting as 0), zero exponents are
    /// dropped, and the result is in canonical sort order.
    pub fn merge_base_representations(
        &self,
        lhs: &BaseRepresentation,
        rhs: &BaseRepresentation,
    ) -> (result: BaseRepresentation)
        requires
            canonical(lhs@),
            canonical(rhs@),
            forall|i: int, j: int|
                0 <= i < lhs@.len() && 0 <= j < rhs@.len() && lhs@[i].0 == rhs@[j].0
                    ==> i32::MIN <= lhs@[i].1 + rhs@[j].1 <= i32::MAX,
        ensures
            canonical(result@),
            forall|n: Seq<char>| exp_in(result@, n) == exp_in(lhs@, n) + exp_in(rhs@, n),
    {
        let mut acc = lhs.clone();
        let mut j: usize = 0;
        proof {
            assert(rhs@.take(0) =~= Seq::<(Seq<char>, int)>::empty());
            assert forall|n: Seq<char>|
                exp_in(acc@, n) == exp_in(lhs@, n) + exp_in(rhs@.take(0), n) by {
                assert(exp_in(rhs@.take(0), n) == 0);
            }
        }
        while j < rhs.components.len()
            invariant
                0 <= j <= rhs.components.len(),
                canonical(lhs@),
                canonical(rhs@),
                rhs@.len() == rhs.components@.len(),
                forall|i2: int, j2: int|
                    0 <= i2 < lhs@.len() && 0 <= j2 < rhs@.len() && lhs@[i2].0 == rhs@[j2].0
                        ==> i32::MIN <= lhs@[i2].1 + rhs@[j2].1 <= i32::MAX,
                canonical(acc@),
                forall|n: Seq<char>|
                    exp_in(acc@, n) == exp_in(lhs@, n) + exp_in(rhs@.take(j as int), n),
            decreases rhs.components.len() - j,
        {
            let ghost name_model = rhs@[j as int].0;
            let ghost rhs_exp = rhs@[j as int].1;
            let ghost acc_before = acc@;
            proof {
                // The current name is not among the previous components of
                // `rhs`: they are strictly sorted.
                assert forall|m: int| 0 <= m < j implies rhs@.take(j as int)[m].0 != name_model by {
                    lemma_lex_lt_irreflexive(name_model);
                    assert(lex_lt(rhs@[m].0, rhs@[j as int].0));
                }
                lemma_exp_in_absent(rhs@.take(j as int), name_model);
                assert(rhs@.take(j as int + 1) =~= rhs@.take(j as int) + seq![rhs@[j as int]]);
                assert forall|n: Seq<char>|
                    exp_in(rhs@.take(j as int + 1), n) == exp_in(rhs@.take(j as int), n) + (
                    if n == name_model {
                        rhs_exp
                    } else {
                        0
                    }) by {
                    lemma_exp_in_concat(rhs@.take(j as int), seq![rhs@[j as int]], n);
                    lemma_exp_in_singleton(rhs@[j as int], n);
                }
            }
            // Find the insertion or update position for the current name.
            let mut k: usize = 0;
            while k < acc.components.len() && str_lt(
                acc.components[k].0.as_str(),
                rhs.components[j].0.as_str(),
            )
                invariant
                    0 <= k <= acc.components.len(),
                    0 <= j < rhs.components.len(),
                    acc@.len() == acc.components@.len(),
                    rhs@.len() == rhs.components@.len(),
                    name_model == rhs@[j as int].0,
                    forall|m: int| 0 <= m < k ==> lex_lt(acc@[m].0, name_model),
                decreases acc.components.len() - k,
            {
                k += 1;
            }
            let found = k < acc.components.len() && acc.components[k].0 == rhs.components[j].0;
            if found {
                proof {
                    assert(acc_before[k as int].0 == name_model);
                    lemma_exp_in_at(acc_before, k as int, name_model);
                    // The accumulated exponent at this name is still the one
                    // from `lhs`, so the caller's overflow bound applies.
                    assert(exp_in(acc_before, name_model) == exp_in(lhs@, name_model));
                    if exp_in(lhs@, name_model) != 0 {
                        lemma_exp_in_nonzero_present(lhs@, name_model);
                        let i2 = choose|i2: int| 0 <= i2 < lhs@.len() && lhs@[i2].0 == name_model;
                        lemma_exp_in_at(lhs@, i2, name_model);
                    }
                }
                let existing = acc.components[k].1;
                let summed = existing + rhs.components[j].1;
                if summed == 0 {
                    acc.components.remove(k);
                    proof {
                        lemma_exp_in_remove(acc_before, k as int);
                        lemma_canonical_remove(acc_before, k as int);
                        assert(acc@ == acc_before.remove(k as int));
                        assert forall|n: Seq<char>|
                            exp_in(acc@, n) == exp_in(lhs@, n) + exp_in(
                                rhs@.take(j as int + 1),
                                n,
                            ) by {
                            assert(exp_in(acc@, n) == exp_in(acc_before, n) + (if n == name_model {
                                -acc_before[k as int].1
                            } else {
                                0
                            }));
                        }
                    }
                } else {
                    let removed = acc.components.remove(k);
                    let ghost after_remove = acc@;
                    acc.components.insert(k, (removed.0, summed));
                    proof {
                        let replaced = acc_before.update(
                            k as int,
                            (name_model, summed as int),
                        );
                        assert(acc@ =~= replaced);
                        lemma_exp_in_replace(acc_before, k as int, (name_model, summed as int));
                        assert(canonical(acc@)) by {
                            assert(forall|m: int|
                                0 <= m < replaced.len() ==> replaced[m].0 == acc_before[m].0);
                            assert(forall|i2: int, j2: int|
                                0 <= i2 < j2 < replaced.len() ==> lex_lt(
                                    replaced[i2].0,
                                    replaced[j2].0,
                                ));
                            assert(forall|m: int| 0 <= m < replaced.len() ==> replaced[m].1 != 0);
                        }
                        assert forall|n: Seq<char>|
                            exp_in(acc@, n) == exp_in(lhs@, n) + exp_in(
                                rhs@.take(j as int + 1),
                                n,
                            ) by {
                            assert(exp_in(acc@, n) == exp_in(acc_before, n) + (if n == name_model {
                                summed - acc_before[k as int].1
                            } else {
                                0
                            }));
                        }
                    }
                }
            } else {
                proof {
                    // The name is new to the accumulator, hence new to `lhs`:
                    // an accumulated entry for it would carry the nonzero
                    // exponent it has in `lhs`.
                    if k < acc_before.len() {
                        lemma_lex_lt_total(acc_before[k as int].0, name_model);
                    }
                    assert forall|m: int| 0 <= m < acc_before.len() implies acc_before[m].0
                        != name_model by {
                        lemma_lex_lt_irreflexive(name_model);
                        if m < k as int {
                            assert(lex_lt(acc_before[m].0, name_model));
                        } else if m > k as int {
                            assert(lex_lt(acc_before[k as int].0, acc_before[m].0));
                            if lex_lt(name_model, acc_before[k as int].0) {
                                lemma_lex_lt_transitive(
                                    name_model,
                                    acc_before[k as int].0,
                                    acc_before[m].0,
                                );
                            }
                        }
                    }
                    lemma_exp_in_absent(acc_before, name_model);
                    assert forall|m: int| k as int <= m < acc_before.len() implies lex_lt(
                        name_model,
                        acc_before[m].0,
                    ) by {
                        if m > k as int {
                            lemma_lex_lt_transitive(
                                name_model,
                                acc_before[k as int].0,
                                acc_before[m].0,
                            );
                        }
                    }
                }
                let name_owned = rhs.components[j].0.clone();
                let exponent = rhs.components[j].1;
                acc.components.insert(k, (name_owned, exponent));
                proof {
                    assert(acc@ =~= acc_before.insert(k as int, (name_model, rhs_exp)));
                    lemma_exp_in_insert(acc_before, k as int, (name_model, rhs_exp));
                    lemma_canonical_insert(acc_before, k as int, (name_model, rhs_exp));
                    assert forall|n: Seq<char>|
                        exp_in(acc@, n) == exp_in(lhs@, n) + exp_in(
                            rhs@.take(j as int + 1),
                            n,
                        ) by {
                        assert(exp_in(acc@, n) == exp_in(acc_before, n) + (if n == name_model {
                            rhs_exp
                        } else {
                            0
                        }));
                    }
                }
            }
            j += 1;
        }
        proof {
            assert(rhs@.take(rhs.components@.len() as int) =~= rhs@);
        }
        acc
    }

    /// The canonical representation bound to `name`: the singleton
    /// representation for a base entry, the memoized one for a derived
    /// entry, and `UnknownEntry` for anything else.
    pub fn get_base_representation_for_name(&self, name: &str) -> (r: Result<
        BaseRepresentation,
        RegistryError,
    >)
        requires
            self.wf(),
        ensures
            self.base_names().contains(name@) ==> (r matches Ok(br) && br@ == seq![
                (name@, 1int),
            ]),
            !self.base_names().contains(name@) && self.derived_names().contains(name@) ==> (r
                matches Ok(br) && self.derived_lookup(name@) == Option::Some(br@)),
            !self.base_names().contains(name@) && !self.derived_names().contains(name@) ==> (r
                matches Err(e) && (e matches RegistryError::UnknownEntry(m) && m@ == name@)),
            (r matches Ok(br) ==> canonical(br@)),
    {
        if self.is_base_entry(name) {
            let mut components: Vec<(String, i32)> = Vec::new();
            components.push((name.to_owned(), 1));
            let r = BaseRepresentation { components };
            proof {
                assert(r@ =~= seq![(name@, 1int)]);
                assert(canonical(r@));
            }
            return Result::Ok(r);
        }
        let mut i: usize = 0;
        while i < self.derived_entries.len()
            invariant
                0 <= i <= self.derived_entries.len(),
                self.wf(),
                !self.base_names().contains(name@),
                forall|j: int| 0 <= j < i ==> self.derived()[j].0 != name@,
            decreases self.derived_entries.len() - i,
        {
            let owned = name.to_owned();
            let hit = self.derived_entries[i].0 == owned;
            if hit {
                let rep = self.derived_entries[i].1.clone();
                proof {
                    assert(self.derived()[i as int].0 == name@);
                    assert(self.derived_names()[i as int] == name@);
                    assert(self.derived_names().contains(name@));
                    let w = choose|w: int|
                        0 <= w < self.derived().len() && self.derived()[w].0 == name@;
                    assert(self.wf());
                    assert(w == i as int);
                    assert(self.derived_lookup(name@) == Option::Some(self.derived()[i as int].1));
                }
                return Result::Ok(rep);
            }
            i += 1;
        }
        proof {
            if self.derived_names().contains(name@) {
                let j = choose|j: int|
                    0 <= j < self.derived_names().len() && self.derived_names()[j] == name@;
                assert(self.derived()[j].0 == name@);
            }
        }
        Result::Err(RegistryError::UnknownEntry(name.to_owned()))
    }
}

} // verus!
