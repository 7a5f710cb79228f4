//! Dimension vectors: which base dimensions a quantity has, each with its
//! exponent, in the order in which they are written out.

use vstd::prelude::*;
use crate::assoc::{
    distinct_keys, lemma_lookup_entry, lemma_lookup_none, lemma_lookup_prefix, lemma_lookup_push,
    lemma_lookup_some, lookup, Text,
};
use crate::error::{EngineError, ErrorView};
use crate::fraction::{
    lemma_lowest_terms, lemma_lowest_terms_fixed, lemma_negate_reciprocal_lowest_terms, Fraction,
};
use crate::numtheory::gcd;
use crate::rational::{render_fraction, Rational};

verus! {

/// The model of a dimension vector: base-dimension symbols with their
/// exponents, in display order.
pub type Dims = Seq<(Text, Fraction)>;

/// The exponent of `symbol` in `d`; zero when `d` does not mention it.
pub open spec fn exponent_of(d: Dims, symbol: Text) -> Fraction {
    match lookup(d, symbol) {
        Some(e) => e,
        None => Fraction::integer(0),
    }
}

/// No symbol occurs twice, and every exponent is a stored fraction other
/// than zero.
pub open spec fn dims_wf(d: Dims) -> bool {
    &&& distinct_keys(d)
    &&& forall|i: int|
        0 <= i < d.len() ==> {
            &&& (#[trigger] d[i]).1.in_lowest_terms()
            &&& d[i].1.fits()
            &&& !d[i].1.is_zero()
        }
}

/// The two vectors give every symbol the same exponent.
pub open spec fn dims_equal(a: Dims, b: Dims) -> bool {
    forall|symbol: Text| exponent_of(a, symbol) == exponent_of(b, symbol)
}

/// Every exponent negated, symbols and order kept.
pub open spec fn inverted(d: Dims) -> Dims {
    Seq::new(d.len(), |i: int| (d[i].0, d[i].1.negate()))
}

/// The entries of `a`, each with the exponent that `b` gives its symbol
/// added, without those whose sum is zero.
pub open spec fn summed(a: Dims, b: Dims) -> Dims
    decreases a.len(),
{
    if a.len() == 0 {
        Seq::empty()
    } else {
        let rest = summed(a.drop_last(), b);
        let sum = a.last().1.add(exponent_of(b, a.last().0));
        if sum.is_zero() {
            rest
        } else {
            rest.push((a.last().0, sum))
        }
    }
}

/// The entries of `b` whose symbol `a` does not mention.
pub open spec fn added(a: Dims, b: Dims) -> Dims
    decreases b.len(),
{
    if b.len() == 0 {
        Seq::empty()
    } else {
        let rest = added(a, b.drop_last());
        if lookup(a, b.last().0) is Some {
            rest
        } else {
            rest.push(b.last())
        }
    }
}

/// The dimensions of a product: exponents added symbol by symbol, sums of
/// zero dropped, in the order of first occurrence in `a`, then in `b`.
pub open spec fn combined(a: Dims, b: Dims) -> Dims {
    summed(a, b) + added(a, b)
}

/// Every exponent sum that `combined` forms can be stored.
pub open spec fn combine_fits(a: Dims, b: Dims) -> bool {
    forall|i: int| 0 <= i < a.len() ==> (#[trigger] a[i]).1.add(exponent_of(b, a[i].0)).fits()
}

/// How one dimension is written: a space, the symbol, and `^` with the
/// exponent unless the exponent is one.
pub open spec fn render_dimension(entry: (Text, Fraction)) -> Seq<char> {
    if entry.1 == Fraction::integer(1) {
        seq![' '] + entry.0
    } else {
        seq![' '] + entry.0 + seq!['^'] + render_fraction(entry.1)
    }
}

/// How a dimension vector is written: its dimensions in stored order.
pub open spec fn render_dims(d: Dims) -> Seq<char>
    decreases d.len(),
{
    if d.len() == 0 {
        Seq::empty()
    } else {
        render_dims(d.drop_last()) + render_dimension(d.last())
    }
}

/// A fraction in lowest terms with numerator zero is `0 / 1`.
pub proof fn lemma_zero_is_integer(f: Fraction)
    requires
        f.in_lowest_terms(),
        f.is_zero(),
    ensures
        f == Fraction::integer(0),
{
    reveal_with_fuel(gcd, 3);
    assert(0nat % (f.den as nat) == 0);
}

/// Adding zero to a fraction in lowest terms, on either side, gives it back.
pub proof fn lemma_add_zero(f: Fraction)
    requires
        f.in_lowest_terms(),
    ensures
        f.add(Fraction::integer(0)) == f,
        Fraction::integer(0).add(f) == f,
{
    lemma_lowest_terms_fixed(f);
    assert(f.num * 1 + 0 * f.den == f.num && f.den * 1 == f.den && 0 * f.den + f.num * 1 == f.num
        && 1 * f.den == f.den) by (nonlinear_arith);
}

/// What `summed` binds a symbol to.
pub proof fn lemma_summed_lookup(a: Dims, b: Dims, symbol: Text)
    requires
        distinct_keys(a),
    ensures
        lookup(summed(a, b), symbol) == match lookup(a, symbol) {
            Some(e) => if e.add(exponent_of(b, symbol)).is_zero() {
                None
            } else {
                Some(e.add(exponent_of(b, symbol)))
            },
            None => None,
        },
    decreases a.len(),
{
    if a.len() > 0 {
        let front = a.drop_last();
        assert forall|i: int, j: int| 0 <= i < j < front.len() implies (#[trigger] front[i]).0 != (
        #[trigger] front[j]).0 by {
            assert(front[i] == a[i] && front[j] == a[j]);
        }
        lemma_summed_lookup(front, b, symbol);
        let sum = a.last().1.add(exponent_of(b, a.last().0));
        if a.last().0 == symbol {
            assert forall|i: int| 0 <= i < front.len() implies (#[trigger] front[i]).0 != symbol by {
                assert(front[i] == a[i]);
                assert(a[i].0 != a[a.len() - 1].0);
            }
            lemma_lookup_none(front, symbol);
        }
        if !sum.is_zero() {
            lemma_lookup_push(summed(front, b), (a.last().0, sum), symbol);
        }
    }
}

/// What `added` binds a symbol to.
pub proof fn lemma_added_lookup(a: Dims, b: Dims, symbol: Text)
    ensures
        lookup(added(a, b), symbol) == if lookup(a, symbol) is Some {
            None
        } else {
            lookup(b, symbol)
        },
    decreases b.len(),
{
    if b.len() > 0 {
        lemma_added_lookup(a, b.drop_last(), symbol);
        if !(lookup(a, b.last().0) is Some) {
            lemma_lookup_push(added(a, b.drop_last()), b.last(), symbol);
        }
    }
}

/// A lookup in a concatenation prefers the second part.
pub proof fn lemma_lookup_concat(x: Dims, y: Dims, symbol: Text)
    ensures
        lookup(x + y, symbol) == if lookup(y, symbol) is Some {
            lookup(y, symbol)
        } else {
            lookup(x, symbol)
        },
    decreases y.len(),
{
    if y.len() == 0 {
        assert(x + y =~= x);
    } else {
        assert((x + y).drop_last() =~= x + y.drop_last());
        assert((x + y).last() == y.last());
        lemma_lookup_concat(x, y.drop_last(), symbol);
    }
}

/// The product's exponent of a symbol is the sum of the factors' exponents
/// of it.
pub proof fn lemma_combined_exponent(a: Dims, b: Dims, symbol: Text)
    requires
        dims_wf(a),
        dims_wf(b),
    ensures
        exponent_of(combined(a, b), symbol) == exponent_of(a, symbol).add(
            exponent_of(b, symbol),
        ),
{
    lemma_summed_lookup(a, b, symbol);
    lemma_added_lookup(a, b, symbol);
    lemma_lookup_concat(summed(a, b), added(a, b), symbol);
    match lookup(a, symbol) {
        Some(e) => {
            let i = lemma_lookup_some(a, symbol);
            assert(a[i].1 == e);
            let f = exponent_of(b, symbol);
            if lookup(b, symbol) is Some {
                let j = lemma_lookup_some(b, symbol);
                assert(b[j].1 == f);
            }
            assert(e.den * f.den > 0) by (nonlinear_arith)
                requires
                    e.den > 0,
                    f.den > 0,
            ;
            lemma_lowest_terms(e.num * f.den + f.num * e.den, e.den * f.den);
            if e.add(f).is_zero() {
                lemma_zero_is_integer(e.add(f));
            }
        },
        None => {
            match lookup(b, symbol) {
                Some(f) => {
                    let j = lemma_lookup_some(b, symbol);
                    assert(b[j].1 == f);
                    lemma_add_zero(f);
                },
                None => {
                    reveal_with_fuel(gcd, 3);
                    lemma_add_zero(Fraction::integer(0));
                },
            }
        },
    }
}

/// A vector stays well formed when an entry with a new symbol and a stored
/// nonzero exponent is appended.
pub proof fn lemma_wf_push(d: Dims, entry: (Text, Fraction))
    requires
        dims_wf(d),
        lookup(d, entry.0) is None,
        entry.1.in_lowest_terms(),
        entry.1.fits(),
        !entry.1.is_zero(),
    ensures
        dims_wf(d.push(entry)),
{
    lemma_lookup_none(d, entry.0);
    let p = d.push(entry);
    assert forall|i: int, j: int| 0 <= i < j < p.len() implies (#[trigger] p[i]).0 != (
    #[trigger] p[j]).0 by {
        assert(p[i] == d[i]);
        if j < d.len() {
            assert(p[j] == d[j]);
        }
    }
    assert forall|i: int| 0 <= i < p.len() implies {
        &&& (#[trigger] p[i]).1.in_lowest_terms()
        &&& p[i].1.fits()
        &&& !p[i].1.is_zero()
    } by {
        if i < d.len() {
            assert(p[i] == d[i]);
        }
    }
}

/// A prefix of a well-formed vector is well formed.
pub proof fn lemma_wf_take(d: Dims, n: int)
    requires
        dims_wf(d),
        0 <= n <= d.len(),
    ensures
        dims_wf(d.take(n)),
{
    let t = d.take(n);
    assert forall|i: int, j: int| 0 <= i < j < t.len() implies (#[trigger] t[i]).0 != (
    #[trigger] t[j]).0 by {
        assert(t[i] == d[i] && t[j] == d[j]);
    }
    assert forall|i: int| 0 <= i < t.len() implies {
        &&& (#[trigger] t[i]).1.in_lowest_terms()
        &&& t[i].1.fits()
        &&& !t[i].1.is_zero()
    } by {
        assert(t[i] == d[i]);
    }
}

/// `summed` of well-formed vectors whose sums can be stored is well formed.
pub proof fn lemma_summed_wf(a: Dims, b: Dims)
    requires
        dims_wf(a),
        dims_wf(b),
        combine_fits(a, b),
    ensures
        dims_wf(summed(a, b)),
    decreases a.len(),
{
    if a.len() > 0 {
        let front = a.drop_last();
        lemma_wf_take(a, a.len() - 1);
        assert(a.take(a.len() - 1) =~= front);
        assert forall|i: int| 0 <= i < front.len() implies (#[trigger] front[i]).1.add(
            exponent_of(b, front[i].0),
        ).fits() by {
            assert(front[i] == a[i]);
        }
        lemma_summed_wf(front, b);
        let symbol = a.last().0;
        let e = a.last().1;
        let f = exponent_of(b, symbol);
        let sum = e.add(f);
        if !sum.is_zero() {
            assert(a[a.len() - 1] == a.last());
            if lookup(b, symbol) is Some {
                let j = lemma_lookup_some(b, symbol);
                assert(b[j].1 == f);
            }
            assert(e.den * f.den > 0) by (nonlinear_arith)
                requires
                    e.den > 0,
                    f.den > 0,
            ;
            lemma_lowest_terms(e.num * f.den + f.num * e.den, e.den * f.den);
            assert forall|i: int| 0 <= i < front.len() implies (#[trigger] front[i]).0
                != symbol by {
                assert(front[i] == a[i]);
                assert(a[i].0 != a[a.len() - 1].0);
            }
            lemma_lookup_none(front, symbol);
            lemma_summed_lookup(front, b, symbol);
            lemma_wf_push(summed(front, b), (symbol, sum));
        }
    }
}

/// The dimensions of a product of well-formed vectors are well formed,
/// provided every exponent sum can be stored.
pub proof fn lemma_combined_wf(a: Dims, b: Dims)
    requires
        dims_wf(a),
        dims_wf(b),
        combine_fits(a, b),
    ensures
        dims_wf(combined(a, b)),
{
    lemma_summed_wf(a, b);
    lemma_combined_prefix_wf(a, b, b.len() as int);
    assert(b.take(b.len() as int) =~= b);
}

/// `summed(a, b)` followed by what `added` takes from a prefix of `b` is
/// well formed.
proof fn lemma_combined_prefix_wf(a: Dims, b: Dims, n: int)
    requires
        dims_wf(a),
        dims_wf(b),
        dims_wf(summed(a, b)),
        0 <= n <= b.len(),
    ensures
        dims_wf(summed(a, b) + added(a, b.take(n))),
    decreases n,
{
    let head = summed(a, b);
    if n == 0 {
        assert(head + added(a, b.take(0)) =~= head);
    } else {
        lemma_combined_prefix_wf(a, b, n - 1);
        let part = b.take(n);
        assert(part.drop_last() =~= b.take(n - 1));
        assert(part.last() == b[n - 1]);
        let entry = b[n - 1];
        if !(lookup(a, entry.0) is Some) {
            let before = head + added(a, b.take(n - 1));
            assert(head + added(a, part) =~= before.push(entry));
            lemma_lookup_concat(head, added(a, b.take(n - 1)), entry.0);
            lemma_added_lookup(a, b.take(n - 1), entry.0);
            lemma_summed_lookup(a, b, entry.0);
            assert forall|i: int| 0 <= i < n - 1 implies (#[trigger] b.take(n - 1)[i]).0
                != entry.0 by {
                assert(b.take(n - 1)[i] == b[i]);
                assert(b[i].0 != b[n - 1].0);
            }
            lemma_lookup_none(b.take(n - 1), entry.0);
            lemma_wf_push(before, entry);
        }
    }
}

/// Negating every exponent keeps a vector well formed, and negates what it
/// gives each symbol.
pub proof fn lemma_inverted(d: Dims, symbol: Text)
    requires
        dims_wf(d),
    ensures
        dims_wf(inverted(d)),
        lookup(inverted(d), symbol) == match lookup(d, symbol) {
            Some(e) => Some(e.negate()),
            None => None,
        },
    decreases d.len(),
{
    let v = inverted(d);
    assert forall|i: int| 0 <= i < v.len() implies {
        &&& (#[trigger] v[i]).1.in_lowest_terms()
        &&& v[i].1.fits()
        &&& !v[i].1.is_zero()
    } by {
        lemma_negate_reciprocal_lowest_terms(d[i].1);
    }
    assert forall|i: int, j: int| 0 <= i < j < v.len() implies (#[trigger] v[i]).0 != (
    #[trigger] v[j]).0 by {
        assert(d[i].0 != d[j].0);
    }
    if d.len() > 0 {
        lemma_wf_take(d, d.len() - 1);
        assert(d.take(d.len() - 1) =~= d.drop_last());
        lemma_inverted(d.drop_last(), symbol);
        assert(v.drop_last() =~= inverted(d.drop_last()));
        assert(v.last() == (d.last().0, d.last().1.negate()));
    }
}

/// One base dimension with its exponent.
#[derive(Debug)]
struct Dimension {
    symbol: String,
    exponent: Rational,
}

/// The base dimensions of a quantity with their exponents, in display
/// order. No symbol occurs twice and no exponent is zero.
#[derive(Debug)]
pub struct DimensionVector {
    entries: Vec<Dimension>,
}

impl View for Dimension {
    type V = (Text, Fraction);

    closed spec fn view(&self) -> (Text, Fraction) {
        (self.symbol@, self.exponent@)
    }
}

/// The model of a list of entries.
spec fn entries_view(v: Seq<Dimension>) -> Dims {
    Seq::new(v.len(), |i: int| v[i]@)
}

proof fn lemma_entries_push(v: Seq<Dimension>, d: Dimension)
    ensures
        entries_view(v.push(d)) == entries_view(v).push((d.symbol@, d.exponent@)),
{
    assert(entries_view(v.push(d)) =~= entries_view(v).push((d.symbol@, d.exponent@)));
}

impl View for DimensionVector {
    type V = Dims;

    closed spec fn view(&self) -> Dims {
        entries_view(self.entries@)
    }
}

impl Clone for Dimension {
    fn clone(&self) -> (r: Self)
        ensures
            r@ == self@,
    {
        Dimension { symbol: self.symbol.clone(), exponent: self.exponent }
    }
}

impl Clone for DimensionVector {
    fn clone(&self) -> (r: Self)
        ensures
            r@ == self@,
    {
        let mut entries: Vec<Dimension> = Vec::new();
        let mut i: usize = 0;
        while i < self.entries.len()
            invariant
                i <= self.entries.len(),
                entries_view(entries@) == self@.take(i as int),
            decreases self.entries.len() - i,
        {
            let e = self.entries[i].clone();
            proof {
                lemma_entries_push(entries@, e);
                assert(self@.take(i + 1) =~= self@.take(i as int).push(self@[i as int]));
            }
            entries.push(e);
            i += 1;
        }
        assert(self@.take(self.entries.len() as int) =~= self@);
        DimensionVector { entries }
    }
}

impl DimensionVector {
    /// No symbol occurs twice, and every exponent is a stored fraction other
    /// than zero.
    pub open spec fn wf(&self) -> bool {
        dims_wf(self@)
    }

    /// The vector of a pure number: no dimension at all.
    pub fn dimensionless() -> (r: DimensionVector)
        ensures
            r.wf(),
            r@ == Seq::<(Text, Fraction)>::empty(),
    {
        let r = DimensionVector { entries: Vec::new() };
        assert(r@ =~= Seq::<(Text, Fraction)>::empty());
        r
    }

    /// The vector of one base dimension, with exponent one.
    pub fn base(symbol: &str) -> (r: DimensionVector)
        ensures
            r.wf(),
            r@ == seq![(symbol@, Fraction::integer(1))],
    {
        let mut r = DimensionVector::dimensionless();
        r.push(symbol, Rational::one());
        assert(r@ =~= seq![(symbol@, Fraction::integer(1))]);
        r
    }

    /// Appends a dimension that the vector does not have yet.
    pub(crate) fn push(&mut self, symbol: &str, exponent: Rational)
        requires
            old(self).wf(),
            exponent.wf(),
            !exponent@.is_zero(),
            lookup(old(self)@, symbol@) is None,
        ensures
            final(self).wf(),
            final(self)@ == old(self)@.push((symbol@, exponent@)),
    {
        let entry = Dimension { symbol: symbol.to_owned(), exponent };
        proof {
            lemma_entries_push(self.entries@, entry);
            lemma_wf_push(self@, (symbol@, exponent@));
        }
        self.entries.push(entry);
    }

    /// The number of dimensions.
    pub fn len(&self) -> (n: usize)
        ensures
            n == self@.len(),
    {
        self.entries.len()
    }

    /// Whether the vector is that of a pure number.
    pub fn is_dimensionless(&self) -> (b: bool)
        ensures
            b == (self@.len() == 0),
    {
        self.entries.len() == 0
    }

    /// The symbol of the dimension at `index`, in display order.
    pub fn symbol_at(&self, index: usize) -> (s: String)
        requires
            index < self@.len(),
        ensures
            s@ == self@[index as int].0,
    {
        self.entries[index].symbol.clone()
    }

    /// The exponent of the dimension at `index`, in display order.
    pub fn exponent_at(&self, index: usize) -> (e: Rational)
        requires
            index < self@.len(),
        ensures
            e@ == self@[index as int].1,
    {
        self.entries[index].exponent
    }

    /// Where the vector holds `symbol`, if it does.
    fn position(&self, symbol: &String) -> (r: Option<usize>)
        ensures
            match r {
                Some(i) => i < self@.len() && self@[i as int].0 == symbol@ && lookup(
                    self@,
                    symbol@,
                ) == Some(self@[i as int].1),
                None => lookup(self@, symbol@) is None,
            },
    {
        let mut i: usize = self.entries.len();
        while i > 0
            invariant
                i <= self.entries.len(),
                forall|j: int| i <= j < self@.len() ==> (#[trigger] self@[j]).0 != symbol@,
            decreases i,
        {
            i -= 1;
            if self.entries[i].symbol == *symbol {
                proof {
                    lemma_lookup_prefix(self@, i + 1, symbol@);
                    assert(self@.take(i + 1).last() == self@[i as int]);
                }
                return Some(i);
            }
        }
        proof {
            lemma_lookup_none(self@, symbol@);
        }
        None
    }

    /// The exponent of `symbol`: zero when the vector does not mention it.
    pub fn exponent(&self, symbol: &str) -> (e: Rational)
        requires
            self.wf(),
        ensures
            e.wf(),
            e@ == exponent_of(self@, symbol@),
    {
        let key = symbol.to_owned();
        self.exponent_of_symbol(&key)
    }

    fn exponent_of_symbol(&self, symbol: &String) -> (e: Rational)
        requires
            self.wf(),
        ensures
            e.wf(),
            e@ == exponent_of(self@, symbol@),
    {
        match self.position(symbol) {
            Some(i) => self.entries[i].exponent,
            None => Rational::zero(),
        }
    }

    /// Whether every entry of `self` has the same exponent in `other`.
    fn within(&self, other: &DimensionVector) -> (b: bool)
        requires
            self.wf(),
            other.wf(),
        ensures
            b == forall|i: int|
                0 <= i < self@.len() ==> (#[trigger] self@[i]).1 == exponent_of(
                    other@,
                    self@[i].0,
                ),
    {
        let mut i: usize = 0;
        while i < self.entries.len()
            invariant
                i <= self.entries.len(),
                self.wf(),
                other.wf(),
                forall|j: int|
                    0 <= j < i ==> (#[trigger] self@[j]).1 == exponent_of(other@, self@[j].0),
            decreases self.entries.len() - i,
        {
            let theirs = other.exponent_of_symbol(&self.entries[i].symbol);
            assert(self@[i as int] == self.entries@[i as int]@);
            if !theirs.equals(&self.entries[i].exponent) {
                assert(self@[i as int].1 != exponent_of(other@, self@[i as int].0));
                return false;
            }
            i += 1;
        }
        true
    }

    /// Whether the two vectors give every symbol the same exponent; the
    /// order of the entries is not compared.
    pub fn same_dimensions(&self, other: &DimensionVector) -> (b: bool)
        requires
            self.wf(),
            other.wf(),
        ensures
            b == dims_equal(self@, other@),
    {
        let forth = self.within(other);
        let back = other.within(self);
        proof {
            let a = self@;
            let c = other@;
            if forth && back {
                assert forall|symbol: Text| exponent_of(a, symbol) == exponent_of(c, symbol) by {
                    if lookup(a, symbol) is Some {
                        let i = lemma_lookup_some(a, symbol);
                        assert(a[i].1 == exponent_of(c, a[i].0));
                    } else if lookup(c, symbol) is Some {
                        let j = lemma_lookup_some(c, symbol);
                        assert(c[j].1 == exponent_of(a, c[j].0));
                    }
                }
            }
            if dims_equal(a, c) {
                assert forall|i: int| 0 <= i < a.len() implies (#[trigger] a[i]).1 == exponent_of(
                    c,
                    a[i].0,
                ) by {
                    lemma_lookup_entry(a, i);
                    assert(exponent_of(a, a[i].0) == exponent_of(c, a[i].0));
                }
                assert forall|j: int| 0 <= j < c.len() implies (#[trigger] c[j]).1 == exponent_of(
                    a,
                    c[j].0,
                ) by {
                    lemma_lookup_entry(c, j);
                    assert(exponent_of(a, c[j].0) == exponent_of(c, c[j].0));
                }
            }
        }
        forth && back
    }

    /// The vector with every exponent negated.
    pub fn invert(&self) -> (r: DimensionVector)
        requires
            self.wf(),
        ensures
            r.wf(),
            r@ == inverted(self@),
    {
        let mut entries: Vec<Dimension> = Vec::new();
        let mut i: usize = 0;
        while i < self.entries.len()
            invariant
                i <= self.entries.len(),
                self.wf(),
                entries_view(entries@) == inverted(self@).take(i as int),
            decreases self.entries.len() - i,
        {
            assert(self@[i as int].1.fits());
            let e = Dimension {
                symbol: self.entries[i].symbol.clone(),
                exponent: self.entries[i].exponent.negate(),
            };
            proof {
                lemma_entries_push(entries@, e);
                assert(inverted(self@).take(i + 1) =~= inverted(self@).take(i as int).push(
                    inverted(self@)[i as int],
                ));
            }
            entries.push(e);
            i += 1;
        }
        proof {
            assert(inverted(self@).take(self.entries.len() as int) =~= inverted(self@));
            lemma_inverted(self@, Seq::empty());
        }
        DimensionVector { entries }
    }

    /// The dimensions of a product: exponents added symbol by symbol, sums
    /// of zero dropped, in the order of first occurrence in `self`, then in
    /// `other`. Fails with `Overflow` when an exponent sum cannot be stored.
    pub fn combine(&self, other: &DimensionVector) -> (r: Result<DimensionVector, EngineError>)
        requires
            self.wf(),
            other.wf(),
        ensures
            match r {
                Ok(v) => v.wf() && combine_fits(self@, other@) && v@ == combined(self@, other@),
                Err(e) => e@ == ErrorView::Overflow && !combine_fits(self@, other@),
            },
    {
        let mut entries: Vec<Dimension> = Vec::new();
        let mut i: usize = 0;
        while i < self.entries.len()
            invariant
                i <= self.entries.len(),
                self.wf(),
                other.wf(),
                entries_view(entries@) == summed(self@.take(i as int), other@),
                forall|j: int|
                    0 <= j < i ==> (#[trigger] self@[j]).1.add(exponent_of(other@, self@[j].0)).fits(),
            decreases self.entries.len() - i,
        {
            let theirs = other.exponent_of_symbol(&self.entries[i].symbol);
            assert(self@[i as int].1.fits());
            proof {
                let part = self@.take(i + 1);
                assert(part.drop_last() =~= self@.take(i as int));
                assert(part.last() == self@[i as int]);
            }
            match self.entries[i].exponent.add(&theirs) {
                Ok(sum) => {
                    if !sum.is_zero() {
                        let e = Dimension { symbol: self.entries[i].symbol.clone(), exponent: sum };
                        proof {
                            lemma_entries_push(entries@, e);
                        }
                        entries.push(e);
                    }
                },
                Err(e) => {
                    return Err(e);
                },
            }
            i += 1;
        }
        assert(self@.take(self.entries.len() as int) =~= self@);
        let mut j: usize = 0;
        while j < other.entries.len()
            invariant
                j <= other.entries.len(),
                self.wf(),
                other.wf(),
                entries_view(entries@) == summed(self@, other@) + added(
                    self@,
                    other@.take(j as int),
                ),
            decreases other.entries.len() - j,
        {
            proof {
                let part = other@.take(j + 1);
                assert(part.drop_last() =~= other@.take(j as int));
                assert(part.last() == other@[j as int]);
            }
            if self.position(&other.entries[j].symbol).is_none() {
                let e = other.entries[j].clone();
                proof {
                    lemma_entries_push(entries@, e);
                    assert((summed(self@, other@) + added(self@, other@.take(j as int))).push(
                        other@[j as int],
                    ) =~= summed(self@, other@) + added(self@, other@.take(j as int)).push(
                        other@[j as int],
                    ));
                }
                entries.push(e);
            }
            j += 1;
        }
        proof {
            assert(other@.take(other.entries.len() as int) =~= other@);
            lemma_combined_wf(self@, other@);
        }
        Ok(DimensionVector { entries })
    }

    /// Appends the dimensions to `out`, each as a space, its symbol, and
    /// `^` with the exponent unless the exponent is one.
    pub fn push_rendered(&self, out: &mut String)
        requires
            self.wf(),
        ensures
            final(out)@ == old(out)@ + render_dims(self@),
    {
        let mut i: usize = 0;
        assert(render_dims(self@.take(0)) =~= Seq::<char>::empty());
        assert(out@ =~= old(out)@ + render_dims(self@.take(0)));
        while i < self.entries.len()
            invariant
                i <= self.entries.len(),
                self.wf(),
                out@ == old(out)@ + render_dims(self@.take(i as int)),
            decreases self.entries.len() - i,
        {
            let ghost before = out@;
            assert(self@[i as int] == self.entries@[i as int]@);
            proof {
                let part = self@.take(i + 1);
                assert(part.drop_last() =~= self@.take(i as int));
                assert(part.last() == self@[i as int]);
                assert(self@[i as int].1.fits());
            }
            out.push(' ');
            vstd::string::StringExecFns::append(out, self.entries[i].symbol.as_str());
            let one = Rational::one();
            if !self.entries[i].exponent.equals(&one) {
                out.push('^');
                self.entries[i].exponent.push_rendered(out);
            }
            assert(out@ =~= before + render_dimension(self@[i as int]));
            assert(out@ =~= old(out)@ + render_dims(self@.take(i + 1)));
            i += 1;
        }
        assert(self@.take(self.entries.len() as int) =~= self@);
    }
}

} // verus!
