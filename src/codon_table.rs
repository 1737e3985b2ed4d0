//! Degeneracy labels for ambiguous codons.
//!
//! A codon written with IUPAC ambiguity codes stands for every codon of
//! definite bases that its symbols allow. Translated with the standard
//! genetic code, those give a set of amino acids; when that set has two or
//! three members the codon's label lists them in ascending order, joined by
//! `/` (`AAB` gives `K/N`).

use vstd::prelude::*;

verus! {

/// The four definite nucleotide bases.
pub open spec fn is_dna_base(b: u8) -> bool {
    b == 'A' as u8 || b == 'C' as u8 || b == 'G' as u8 || b == 'T' as u8
}

/// Whether the IUPAC symbol `sym` admits the definite base `b`.
pub open spec fn stands_for(sym: u8, b: u8) -> bool {
    let a = 'A' as u8;
    let c = 'C' as u8;
    let g = 'G' as u8;
    let t = 'T' as u8;
    &&& is_dna_base(b)
    &&& {
        ||| sym == b
        ||| sym == 'N' as u8
        ||| sym == 'R' as u8 && (b == a || b == g)
        ||| sym == 'Y' as u8 && (b == c || b == t)
        ||| sym == 'S' as u8 && (b == g || b == c)
        ||| sym == 'W' as u8 && (b == a || b == t)
        ||| sym == 'K' as u8 && (b == g || b == t)
        ||| sym == 'M' as u8 && (b == a || b == c)
        ||| sym == 'B' as u8 && b != a
        ||| sym == 'D' as u8 && b != c
        ||| sym == 'H' as u8 && b != g
        ||| sym == 'V' as u8 && b != t
    }
}

/// Executable form of `stands_for`.
fn admits(sym: u8, b: u8) -> (r: bool)
    ensures
        r == stands_for(sym, b),
{
    let a = 'A' as u8;
    let c = 'C' as u8;
    let g = 'G' as u8;
    let t = 'T' as u8;
    let base = b == a || b == c || b == g || b == t;
    base && (sym == b || sym == 'N' as u8
        || (sym == 'R' as u8 && (b == a || b == g))
        || (sym == 'Y' as u8 && (b == c || b == t))
        || (sym == 'S' as u8 && (b == g || b == c))
        || (sym == 'W' as u8 && (b == a || b == t))
        || (sym == 'K' as u8 && (b == g || b == t))
        || (sym == 'M' as u8 && (b == a || b == c))
        || (sym == 'B' as u8 && b != a)
        || (sym == 'D' as u8 && b != c)
        || (sym == 'H' as u8 && b != g)
        || (sym == 'V' as u8 && b != t))
}

/// The pyrimidines, `C` and `T`.
pub open spec fn is_pyrimidine(b: u8) -> bool {
    b == 'C' as u8 || b == 'T' as u8
}

/// The standard genetic code on codons of definite bases; stop codons give `*`.
pub open spec fn standard_aa(x: u8, y: u8, z: u8) -> u8 {
    let a = 'A' as u8;
    let c = 'C' as u8;
    let g = 'G' as u8;
    let t = 'T' as u8;
    if x == t {
        if y == t {
            if is_pyrimidine(z) { 'F' as u8 } else { 'L' as u8 }
        } else if y == c {
            'S' as u8
        } else if y == a {
            if is_pyrimidine(z) { 'Y' as u8 } else { '*' as u8 }
        } else {
            if is_pyrimidine(z) { 'C' as u8 } else if z == a { '*' as u8 } else { 'W' as u8 }
        }
    } else if x == c {
        if y == t {
            'L' as u8
        } else if y == c {
            'P' as u8
        } else if y == a {
            if is_pyrimidine(z) { 'H' as u8 } else { 'Q' as u8 }
        } else {
            'R' as u8
        }
    } else if x == a {
        if y == t {
            if z == g { 'M' as u8 } else { 'I' as u8 }
        } else if y == c {
            'T' as u8
        } else if y == a {
            if is_pyrimidine(z) { 'N' as u8 } else { 'K' as u8 }
        } else {
            if is_pyrimidine(z) { 'S' as u8 } else { 'R' as u8 }
        }
    } else {
        if y == t {
            'V' as u8
        } else if y == c {
            'A' as u8
        } else if y == a {
            if is_pyrimidine(z) { 'D' as u8 } else { 'E' as u8 }
        } else {
            'G' as u8
        }
    }
}

/// Executable form of `standard_aa`.
fn translate_definite(x: u8, y: u8, z: u8) -> (r: u8)
    ensures
        r == standard_aa(x, y, z),
{
    let a = 'A' as u8;
    let c = 'C' as u8;
    let g = 'G' as u8;
    let t = 'T' as u8;
    let pyr = z == c || z == t;
    if x == t {
        if y == t {
            if pyr { 'F' as u8 } else { 'L' as u8 }
        } else if y == c {
            'S' as u8
        } else if y == a {
            if pyr { 'Y' as u8 } else { '*' as u8 }
        } else {
            if pyr { 'C' as u8 } else if z == a { '*' as u8 } else { 'W' as u8 }
        }
    } else if x == c {
        if y == t {
            'L' as u8
        } else if y == c {
            'P' as u8
        } else if y == a {
            if pyr { 'H' as u8 } else { 'Q' as u8 }
        } else {
            'R' as u8
        }
    } else if x == a {
        if y == t {
            if z == g { 'M' as u8 } else { 'I' as u8 }
        } else if y == c {
            'T' as u8
        } else if y == a {
            if pyr { 'N' as u8 } else { 'K' as u8 }
        } else {
            if pyr { 'S' as u8 } else { 'R' as u8 }
        }
    } else {
        if y == t {
            'V' as u8
        } else if y == c {
            'A' as u8
        } else if y == a {
            if pyr { 'D' as u8 } else { 'E' as u8 }
        } else {
            'G' as u8
        }
    }
}

/// Whether some definite codon admitted by the three symbols of `c`
/// translates to `aa`.
pub open spec fn can_encode(c: Seq<u8>, aa: u8) -> bool {
    exists|x: u8, y: u8, z: u8|
        #![trigger standard_aa(x, y, z), stands_for(c[0], x), stands_for(c[1], y), stands_for(c[2], z)]
        stands_for(c[0], x) && stands_for(c[1], y) && stands_for(c[2], z) && standard_aa(x, y, z)
            == aa
}

/// Whether a definite base admitted by `s2` completes `x y` to a codon for `aa`.
spec fn completes_with_third(x: u8, y: u8, s2: u8, aa: u8) -> bool {
    exists|z: u8| #[trigger] stands_for(s2, z) && standard_aa(x, y, z) == aa
}

/// Whether definite bases admitted by `s1` and `s2` complete `x` to a codon for `aa`.
spec fn completes_with_second(x: u8, s1: u8, s2: u8, aa: u8) -> bool {
    exists|y: u8| #[trigger] stands_for(s1, y) && completes_with_third(x, y, s2, aa)
}

/// Executable form of `completes_with_third`.
fn third_completes(x: u8, y: u8, s2: u8, aa: u8) -> (r: bool)
    ensures
        r == completes_with_third(x, y, s2, aa),
{
    let a = 'A' as u8;
    let c = 'C' as u8;
    let g = 'G' as u8;
    let t = 'T' as u8;
    (admits(s2, a) && translate_definite(x, y, a) == aa)
        || (admits(s2, c) && translate_definite(x, y, c) == aa)
        || (admits(s2, g) && translate_definite(x, y, g) == aa)
        || (admits(s2, t) && translate_definite(x, y, t) == aa)
}

/// Executable form of `completes_with_second`.
fn second_completes(x: u8, s1: u8, s2: u8, aa: u8) -> (r: bool)
    ensures
        r == completes_with_second(x, s1, s2, aa),
{
    let a = 'A' as u8;
    let c = 'C' as u8;
    let g = 'G' as u8;
    let t = 'T' as u8;
    (admits(s1, a) && third_completes(x, a, s2, aa))
        || (admits(s1, c) && third_completes(x, c, s2, aa))
        || (admits(s1, g) && third_completes(x, g, s2, aa))
        || (admits(s1, t) && third_completes(x, t, s2, aa))
}

/// Executable form of `can_encode`.
fn encodes(codon: &[u8; 3], aa: u8) -> (r: bool)
    ensures
        r == can_encode(codon@, aa),
{
    let a = 'A' as u8;
    let c = 'C' as u8;
    let g = 'G' as u8;
    let t = 'T' as u8;
    let s0 = codon[0];
    let s1 = codon[1];
    let s2 = codon[2];
    let r = (admits(s0, a) && second_completes(a, s1, s2, aa))
        || (admits(s0, c) && second_completes(c, s1, s2, aa))
        || (admits(s0, g) && second_completes(g, s1, s2, aa))
        || (admits(s0, t) && second_completes(t, s1, s2, aa));
    proof {
        if can_encode(codon@, aa) {
            let (x, y, z) = choose|x: u8, y: u8, z: u8|
                stands_for(codon@[0], x) && stands_for(codon@[1], y) && stands_for(codon@[2], z)
                    && standard_aa(x, y, z) == aa;
            assert(completes_with_third(x, y, s2, aa));
            assert(completes_with_second(x, s1, s2, aa));
        }
        if r {
            let x = if starts_codon_for(s0, s1, s2, aa, a) {
                a
            } else if starts_codon_for(s0, s1, s2, aa, c) {
                c
            } else if starts_codon_for(s0, s1, s2, aa, g) {
                g
            } else {
                t
            };
            let y = choose|y: u8| #[trigger] stands_for(s1, y) && completes_with_third(x, y, s2, aa);
            let z = choose|z: u8| #[trigger] stands_for(s2, z) && standard_aa(x, y, z) == aa;
            assert(stands_for(codon@[0], x) && stands_for(codon@[1], y) && stands_for(codon@[2], z)
                && standard_aa(x, y, z) == aa);
        }
    }
    r
}

/// Whether `x`, admitted by `s0`, begins a codon for `aa` admitted by `s0 s1 s2`.
spec fn starts_codon_for(s0: u8, s1: u8, s2: u8, aa: u8, x: u8) -> bool {
    stands_for(s0, x) && completes_with_second(x, s1, s2, aa)
}


/// The symbols that translation can give for a definite codon, in ascending byte order.
pub open spec fn amino_acid_order() -> Seq<u8> {
    seq![
        '*' as u8, 'A' as u8, 'C' as u8, 'D' as u8, 'E' as u8, 'F' as u8, 'G' as u8,
        'H' as u8, 'I' as u8, 'K' as u8, 'L' as u8, 'M' as u8, 'N' as u8, 'P' as u8,
        'Q' as u8, 'R' as u8, 'S' as u8, 'T' as u8, 'V' as u8, 'W' as u8, 'Y' as u8,
    ]
}

/// The amino acids among the first `k` of `amino_acid_order` that `c` can encode.
pub open spec fn degeneracy_prefix(c: Seq<u8>, k: int) -> Seq<u8> {
    amino_acid_order().take(k).filter(encodable_by(c))
}

/// `can_encode` for a fixed codon, as a predicate on amino acids.
pub open spec fn encodable_by(c: Seq<u8>) -> spec_fn(u8) -> bool {
    |aa: u8| can_encode(c, aa)
}

/// The distinct amino acids that `c` can encode, in ascending order.
pub open spec fn degeneracy(c: Seq<u8>) -> Seq<u8> {
    degeneracy_prefix(c, 21)
}

/// The members of `s` separated by `/`.
pub open spec fn slash_join(s: Seq<u8>) -> Seq<u8>
    decreases s.len(),
{
    if s.len() == 0 {
        Seq::empty()
    } else if s.len() == 1 {
        seq![s[0]]
    } else {
        slash_join(s.drop_last()) + seq!['/' as u8, s.last()]
    }
}

/// The degeneracy label of a codon: present when it can encode two or
/// three distinct amino acids.
pub open spec fn degeneracy_label(c: Seq<u8>) -> Option<Seq<u8>> {
    if c.len() == 3 && 2 <= degeneracy(c).len() <= 3 {
        Some(slash_join(degeneracy(c)))
    } else {
        None
    }
}

/// Joins the members of `s` with `/`.
fn join_with_slash(s: &Vec<u8>) -> (r: Vec<u8>)
    ensures
        r@ == slash_join(s@),
{
    let mut r: Vec<u8> = Vec::new();
    let mut k: usize = 0;
    while k < s.len()
        invariant
            k <= s.len(),
            r@ == slash_join(s@.take(k as int)),
        decreases s.len() - k,
    {
        assert(s@.take(k + 1).drop_last() =~= s@.take(k as int));
        if k > 0 {
            r.push('/' as u8);
        }
        r.push(s[k]);
        k = k + 1;
    }
    assert(s@.take(k as int) =~= s@);
    r
}

/// Computes the degeneracy label of `codon`.
fn label_of(codon: &[u8; 3]) -> (r: Option<Vec<u8>>)
    ensures
        r.deep_view() == degeneracy_label(codon@),
{
    let order: [u8; 21] = [
        '*' as u8, 'A' as u8, 'C' as u8, 'D' as u8, 'E' as u8, 'F' as u8, 'G' as u8,
        'H' as u8, 'I' as u8, 'K' as u8, 'L' as u8, 'M' as u8, 'N' as u8, 'P' as u8,
        'Q' as u8, 'R' as u8, 'S' as u8, 'T' as u8, 'V' as u8, 'W' as u8, 'Y' as u8,
    ];
    assert(order@ =~= amino_acid_order());
    let mut found: Vec<u8> = Vec::new();
    let mut k: usize = 0;
    while k < 21
        invariant
            k <= 21,
            order@ == amino_acid_order(),
            found@ == degeneracy_prefix(codon@, k as int),
        decreases 21 - k,
    {
        proof {
            let order_seq = amino_acid_order();
            assert(order_seq.take(k + 1) =~= order_seq.take(k as int).push(order@[k as int]));
            order_seq.take(k as int).lemma_filter_push(order@[k as int], encodable_by(codon@));
        }
        if encodes(codon, order[k]) {
            found.push(order[k]);
        }
        k = k + 1;
    }
    if 2 <= found.len() && found.len() <= 3 {
        let label = join_with_slash(&found);
        Some(label)
    } else {
        None
    }
}


/// The nucleotide alphabet: four definite bases and eleven ambiguity codes.
pub open spec fn iupac_symbols() -> Seq<u8> {
    seq![
        'A' as u8, 'C' as u8, 'G' as u8, 'T' as u8, 'R' as u8, 'Y' as u8, 'S' as u8,
        'W' as u8, 'K' as u8, 'M' as u8, 'B' as u8, 'D' as u8, 'H' as u8, 'V' as u8,
        'N' as u8,
    ]
}

/// The `i`-th symbol of `iupac_symbols`.
fn iupac_symbol(i: usize) -> (r: u8)
    requires
        i < 15,
    ensures
        r == iupac_symbols()[i as int],
{
    let symbols: [u8; 15] = [
        'A' as u8, 'C' as u8, 'G' as u8, 'T' as u8, 'R' as u8, 'Y' as u8, 'S' as u8,
        'W' as u8, 'K' as u8, 'M' as u8, 'B' as u8, 'D' as u8, 'H' as u8, 'V' as u8,
        'N' as u8,
    ];
    assert(symbols@ =~= iupac_symbols());
    symbols[i]
}

/// The position of `sym` in `iupac_symbols`, if it is there.
fn iupac_index(sym: u8) -> (r: Option<usize>)
    ensures
        r matches Some(i) ==> i < 15 && iupac_symbols()[i as int] == sym,
        r is None ==> forall|b: u8| !stands_for(sym, b),
{
    let mut i: usize = 0;
    while i < 15
        invariant
            i <= 15,
            forall|j: int| 0 <= j < i ==> iupac_symbols()[j] != sym,
        decreases 15 - i,
    {
        if iupac_symbol(i) == sym {
            return Some(i);
        }
        i = i + 1;
    }
    assert forall|b: u8| !stands_for(sym, b) by {
        assert(iupac_symbols() =~= seq![
            iupac_symbols()[0], iupac_symbols()[1], iupac_symbols()[2], iupac_symbols()[3],
            iupac_symbols()[4], iupac_symbols()[5], iupac_symbols()[6], iupac_symbols()[7],
            iupac_symbols()[8], iupac_symbols()[9], iupac_symbols()[10], iupac_symbols()[11],
            iupac_symbols()[12], iupac_symbols()[13], iupac_symbols()[14],
        ]);
    }
    None
}

/// The codon made of the symbols at positions `a`, `b` and `c` of `iupac_symbols`.
pub open spec fn codon_at(a: int, b: int, c: int) -> Seq<u8> {
    seq![iupac_symbols()[a], iupac_symbols()[b], iupac_symbols()[c]]
}

/// A codon with a symbol that admits no base encodes nothing.
proof fn lemma_unreadable_codon_has_no_label(c: Seq<u8>)
    requires
        c.len() == 3,
        exists|i: int| 0 <= i < 3 && forall|b: u8| !stands_for(#[trigger] c[i], b),
    ensures
        degeneracy_label(c) is None,
{
    let d = degeneracy(c);
    if d.len() > 0 {
        amino_acid_order().take(21).lemma_filter_pred(encodable_by(c), 0);
        assert(can_encode(c, d[0]));
    }
}

/// The degeneracy labels of every codon over the IUPAC alphabet, computed once.
pub struct AmbiguityCodonTable {
    labels: Vec<Vec<Vec<Option<Vec<u8>>>>>,
}

impl AmbiguityCodonTable {
    /// Every entry holds the label of its codon.
    pub closed spec fn wf(&self) -> bool {
        &&& self.labels@.len() == 15
        &&& forall|a: int| 0 <= a < 15 ==> #[trigger] self.labels@[a]@.len() == 15
        &&& forall|a: int, b: int|
            0 <= a < 15 && 0 <= b < 15 ==> #[trigger] self.labels@[a]@[b]@.len() == 15
        &&& forall|a: int, b: int, c: int|
            0 <= a < 15 && 0 <= b < 15 && 0 <= c < 15 ==> (#[trigger] self.labels@[a]@[b]@[c]).deep_view()
                == degeneracy_label(codon_at(a, b, c))
    }

    fn build_line(a: usize, b: usize) -> (r: Vec<Option<Vec<u8>>>)
        requires
            a < 15,
            b < 15,
        ensures
            r@.len() == 15,
            forall|c: int| 0 <= c < 15 ==> (#[trigger] r@[c]).deep_view() == degeneracy_label(codon_at(a as int, b as int, c)),
    {
        let mut r: Vec<Option<Vec<u8>>> = Vec::new();
        let mut c: usize = 0;
        while c < 15
            invariant
                c <= 15,
                a < 15,
                b < 15,
                r@.len() == c,
                forall|j: int| 0 <= j < c ==> (#[trigger] r@[j]).deep_view() == degeneracy_label(codon_at(a as int, b as int, j)),
            decreases 15 - c,
        {
            let codon: [u8; 3] = [iupac_symbol(a), iupac_symbol(b), iupac_symbol(c)];
            assert(codon@ =~= codon_at(a as int, b as int, c as int));
            r.push(label_of(&codon));
            c = c + 1;
        }
        r
    }

    fn build_plane(a: usize) -> (r: Vec<Vec<Option<Vec<u8>>>>)
        requires
            a < 15,
        ensures
            r@.len() == 15,
            forall|b: int| 0 <= b < 15 ==> #[trigger] r@[b]@.len() == 15,
            forall|b: int, c: int| 0 <= b < 15 && 0 <= c < 15 ==> (#[trigger] r@[b]@[c]).deep_view() == degeneracy_label(codon_at(a as int, b, c)),
    {
        let mut r: Vec<Vec<Option<Vec<u8>>>> = Vec::new();
        let mut b: usize = 0;
        while b < 15
            invariant
                b <= 15,
                a < 15,
                r@.len() == b,
                forall|j: int| 0 <= j < b ==> #[trigger] r@[j]@.len() == 15,
                forall|j: int, c: int| 0 <= j < b && 0 <= c < 15 ==> (#[trigger] r@[j]@[c]).deep_view() == degeneracy_label(codon_at(a as int, j, c)),
            decreases 15 - b,
        {
            r.push(Self::build_line(a, b));
            b = b + 1;
        }
        r
    }

    /// Builds the table of labels for all codons over the IUPAC alphabet.
    pub fn new() -> (t: Self)
        ensures
            t.wf(),
    {
        let mut labels: Vec<Vec<Vec<Option<Vec<u8>>>>> = Vec::new();
        let mut a: usize = 0;
        while a < 15
            invariant
                a <= 15,
                labels@.len() == a,
                forall|i: int| 0 <= i < a ==> #[trigger] labels@[i]@.len() == 15,
                forall|i: int, b: int| 0 <= i < a && 0 <= b < 15 ==> #[trigger] labels@[i]@[b]@.len() == 15,
                forall|i: int, b: int, c: int| 0 <= i < a && 0 <= b < 15 && 0 <= c < 15 ==> (#[trigger] labels@[i]@[b]@[c]).deep_view() == degeneracy_label(codon_at(i, b, c)),
            decreases 15 - a,
        {
            labels.push(Self::build_plane(a));
            a = a + 1;
        }
        AmbiguityCodonTable { labels }
    }

    /// The degeneracy label of `codon`, or `None` when it has none: a codon
    /// of definite bases, one whose ambiguity collapses to a single amino
    /// acid or spreads over more than three, or one with a symbol outside
    /// the IUPAC nucleotide alphabet.
    pub fn resolve(&self, codon: &[u8; 3]) -> (r: Option<Vec<u8>>)
        requires
            self.wf(),
        ensures
            r.deep_view() == degeneracy_label(codon@),
    {
        let ia = iupac_index(codon[0]);
        let ib = iupac_index(codon[1]);
        let ic = iupac_index(codon[2]);
        match (ia, ib, ic) {
            (Some(a), Some(b), Some(c)) => {
                assert(codon@ =~= codon_at(a as int, b as int, c as int));
                match &self.labels[a][b][c] {
                    Some(label) => Some(label.clone()),
                    None => None,
                }
            },
            _ => {
                proof {
                    let i: int = if ia is None { 0 } else if ib is None { 1 } else { 2 };
                    assert(forall|b: u8| !stands_for(#[trigger] codon@[i], b));
                    lemma_unreadable_codon_has_no_label(codon@);
                }
                None
            },
        }
    }
}


/// Filtering keeps a strictly increasing sequence strictly increasing.
proof fn lemma_filter_increasing(s: Seq<u8>, p: spec_fn(u8) -> bool)
    requires
        forall|i: int, j: int| 0 <= i < j < s.len() ==> s[i] < s[j],
    ensures
        forall|i: int, j: int|
            0 <= i < j < s.filter(p).len() ==> s.filter(p)[i] < s.filter(p)[j],
    decreases s.len(),
{
    broadcast use vstd::seq_lib::group_filter_ensures;

    if s.len() > 0 {
        let rest = s.drop_last();
        lemma_filter_increasing(rest, p);
        assert(s =~= rest.push(s.last()));
        rest.lemma_filter_push(s.last(), p);
        let f = rest.filter(p);
        assert forall|i: int| 0 <= i < f.len() implies f[i] < s.last() by {
            assert(f.contains(f[i]));
            rest.lemma_filter_contains_rev(p, f[i]);
        }
    }
}

/// Translating a definite codon gives one of the symbols of `amino_acid_order`.
proof fn lemma_standard_aa_is_ordered(x: u8, y: u8, z: u8)
    ensures
        amino_acid_order().contains(standard_aa(x, y, z)),
{
    let o = amino_acid_order();
    assert(o[0] == '*' as u8 && o[1] == 'A' as u8 && o[2] == 'C' as u8 && o[3] == 'D' as u8);
    assert(o[4] == 'E' as u8 && o[5] == 'F' as u8 && o[6] == 'G' as u8 && o[7] == 'H' as u8);
    assert(o[8] == 'I' as u8 && o[9] == 'K' as u8 && o[10] == 'L' as u8 && o[11] == 'M' as u8);
    assert(o[12] == 'N' as u8 && o[13] == 'P' as u8 && o[14] == 'Q' as u8 && o[15] == 'R' as u8);
    assert(o[16] == 'S' as u8 && o[17] == 'T' as u8 && o[18] == 'V' as u8 && o[19] == 'W' as u8);
    assert(o[20] == 'Y' as u8);
}

/// The degeneracy of a codon is strictly increasing (sorted, without
/// repeats) and holds exactly the amino acids that the codon can encode.
pub proof fn lemma_degeneracy_sorted_and_exact(c: Seq<u8>)
    requires
        c.len() == 3,
    ensures
        forall|i: int, j: int|
            0 <= i < j < degeneracy(c).len() ==> degeneracy(c)[i] < degeneracy(c)[j],
        forall|aa: u8| degeneracy(c).contains(aa) <==> can_encode(c, aa),
{
    broadcast use vstd::seq_lib::group_filter_ensures;

    let o = amino_acid_order();
    assert(o.take(21) =~= o);
    lemma_filter_increasing(o, encodable_by(c));
    assert forall|aa: u8| degeneracy(c).contains(aa) <==> can_encode(c, aa) by {
        if degeneracy(c).contains(aa) {
            let i = choose|i: int| 0 <= i < degeneracy(c).len() && degeneracy(c)[i] == aa;
            assert(encodable_by(c)(degeneracy(c)[i]));
        }
        if can_encode(c, aa) {
            let (x, y, z) = choose|x: u8, y: u8, z: u8|
                stands_for(c[0], x) && stands_for(c[1], y) && stands_for(c[2], z)
                    && standard_aa(x, y, z) == aa;
            lemma_standard_aa_is_ordered(x, y, z);
            let k = choose|k: int| 0 <= k < o.len() && o[k] == aa;
            assert(encodable_by(c)(o[k]));
        }
    }
}

/// Every codon that can encode two or three distinct amino acids is
/// labelled with those amino acids in ascending order, each once,
/// separated by `/`.
pub proof fn lemma_ambiguous_codon_label(c: Seq<u8>)
    requires
        c.len() == 3,
        2 <= degeneracy(c).len() <= 3,
    ensures
        degeneracy_label(c) == Some(slash_join(degeneracy(c))),
        forall|i: int, j: int|
            0 <= i < j < degeneracy(c).len() ==> degeneracy(c)[i] < degeneracy(c)[j],
        forall|aa: u8| degeneracy(c).contains(aa) <==> can_encode(c, aa),
{
    lemma_degeneracy_sorted_and_exact(c);
}

/// A codon of definite bases has no degeneracy label.
pub proof fn lemma_definite_codon_has_no_label(c: Seq<u8>)
    requires
        c.len() == 3,
        is_dna_base(c[0]),
        is_dna_base(c[1]),
        is_dna_base(c[2]),
    ensures
        degeneracy_label(c) is None,
{
    lemma_degeneracy_sorted_and_exact(c);
    let d = degeneracy(c);
    if d.len() >= 2 {
        assert(d.contains(d[0]) && d.contains(d[1]));
        assert(d[0] == standard_aa(c[0], c[1], c[2]));
        assert(d[1] == standard_aa(c[0], c[1], c[2]));
    }
}

} // verus!
