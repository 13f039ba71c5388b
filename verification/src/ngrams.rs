//! The n-gram fingerprint: a request body is tokenized on whitespace and
//! turned into the set of its length-`n` shingles (windows of `n` consecutive
//! tokens joined by single spaces). Two fingerprints are compared by the size
//! of their shingle-set intersection.
use vstd::prelude::*;

verus! {

use vstd::set_lib::lemma_len_intersect;
use crate::text::{tokens_of, join_spaces, chars_of, tokenize, join_window, char_vec_eq,
    lemma_tokens_of_len};

/// Fingerprinting is deterministic: two fingerprints built from the same body
/// with the same window width have the same token sequence and the same
/// shingle set (the contract of `Ngrams::new` pins both to the input alone).
pub proof fn lemma_fingerprint_deterministic(a: Ngrams, b: Ngrams, s: Seq<char>, n: usize)
    requires
        a.tokens() == tokens_of(s),
        a.shingle_set() == fingerprint_of(s, n as int),
        b.tokens() == tokens_of(s),
        b.shingle_set() == fingerprint_of(s, n as int),
    ensures
        a.tokens() == b.tokens(),
        a.shingle_set() == b.shingle_set(),
{
}

/// The shingles of the token sequence `toks`, in window order: every window of
/// exactly `n` consecutive tokens, joined by single spaces. A token sequence
/// shorter than `n` yields the single shingle made of all its tokens (for an
/// empty token sequence that is the empty string).
pub open spec fn shingles_of(toks: Seq<Seq<char>>, n: int) -> Seq<Seq<char>> {
    if toks.len() < n {
        seq![join_spaces(toks)]
    } else {
        Seq::new((toks.len() - n + 1) as nat, |i: int| join_spaces(toks.subrange(i, i + n)))
    }
}

/// The fingerprint of a body `s`: its shingles, with duplicates collapsed.
pub open spec fn fingerprint_of(s: Seq<char>, n: int) -> Set<Seq<char>> {
    shingles_of(tokens_of(s), n).to_set()
}

/// The similarity score of two fingerprints: the size of their intersection.
pub open spec fn score_of(a: Set<Seq<char>>, b: Set<Seq<char>>) -> nat {
    a.intersect(b).len()
}

/// The score is commutative: `score_of(a, b) == score_of(b, a)`.
pub proof fn lemma_score_commutes(a: Set<Seq<char>>, b: Set<Seq<char>>)
    ensures
        score_of(a, b) == score_of(b, a),
{
    assert(a.intersect(b) =~= b.intersect(a));
}

/// A fingerprint scored against itself counts its own shingles:
/// `score_of(a, a) == |a|`.
pub proof fn lemma_score_self(a: Set<Seq<char>>)
    ensures
        score_of(a, a) == a.len(),
{
    assert(a.intersect(a) =~= a);
}

/// Every fingerprint is a finite set.
pub proof fn lemma_fingerprint_finite(s: Seq<char>, n: int)
    ensures
        fingerprint_of(s, n).finite(),
{
    broadcast use vstd::seq_lib::seq_to_set_is_finite;

}

/// No fingerprint scores above its own size against anything: the
/// intersection is never larger than the query set.
pub proof fn lemma_score_bounded(q: Set<Seq<char>>, b: Set<Seq<char>>)
    requires
        q.finite(),
    ensures
        score_of(q, b) <= q.len(),
{
    lemma_len_intersect(q, b);
}

/// A body of at most `n` tokens fingerprints to the single shingle made of
/// all its tokens joined by single spaces: fewer than `n` tokens make one
/// undersized window, and exactly `n` tokens make exactly one full window.
pub proof fn lemma_small_fingerprint(s: Seq<char>, n: int)
    requires
        n >= 1,
        tokens_of(s).len() <= n,
    ensures
        fingerprint_of(s, n) == set![join_spaces(tokens_of(s))],
{
    let toks = tokens_of(s);
    if toks.len() == n {
        assert(toks.subrange(0, n) =~= toks);
    }
    assert(shingles_of(toks, n) =~= seq![join_spaces(toks)]);
    lemma_to_set_push(Seq::empty(), join_spaces(toks));
    assert(Seq::<Seq<char>>::empty().push(join_spaces(toks)) =~= seq![join_spaces(toks)]);
    assert forall|y: Seq<char>| !Seq::<Seq<char>>::empty().to_set().contains(y) by {}
    assert(Seq::<Seq<char>>::empty().to_set() =~= Set::<Seq<char>>::empty());
    assert(fingerprint_of(s, n) =~= set![join_spaces(toks)]);
}

/// Appending one element to a sequence inserts it into the sequence's set.
proof fn lemma_to_set_push<A>(s: Seq<A>, x: A)
    ensures
        s.push(x).to_set() == s.to_set().insert(x),
{
    broadcast use vstd::seq_lib::group_seq_lib_default;

    assert forall|y: A| s.push(x).to_set().contains(y) implies s.to_set().insert(x).contains(
        y,
    ) by {
        let i = choose|i: int| 0 <= i < s.push(x).len() && s.push(x)[i] == y;
        if i < s.len() {
            assert(s[i] == y);
        }
    }
    assert forall|y: A| s.to_set().insert(x).contains(y) implies s.push(x).to_set().contains(
        y,
    ) by {
        if y == x {
            assert(s.push(x)[s.len() as int] == x);
        } else {
            let i = choose|i: int| 0 <= i < s.len() && s[i] == y;
            assert(s.push(x)[i] == y);
        }
    }
    assert(s.push(x).to_set() =~= s.to_set().insert(x));
}

/// How many elements of `items` lie in `b`, counted one by one.
spec fn count_matches(items: Seq<Seq<char>>, b: Set<Seq<char>>) -> nat
    decreases items.len(),
{
    if items.len() == 0 {
        0
    } else {
        count_matches(items.drop_last(), b) + if b.contains(items.last()) {
            1nat
        } else {
            0nat
        }
    }
}

/// Counting the elements of a duplicate-free sequence that lie in a finite set
/// measures the intersection of the sequence's set with that set.
proof fn lemma_count_matches_is_score(items: Seq<Seq<char>>, b: Set<Seq<char>>)
    requires
        items.no_duplicates(),
        b.finite(),
    ensures
        count_matches(items, b) == items.to_set().intersect(b).len(),
    decreases items.len(),
{
    broadcast use vstd::seq_lib::seq_to_set_is_finite;
    broadcast use vstd::set::group_set_axioms;

    if items.len() == 0 {
        assert(items.to_set().intersect(b) =~= Set::<Seq<char>>::empty());
    } else {
        let dl = items.drop_last();
        let x = items.last();
        assert(dl.no_duplicates());
        assert(!dl.contains(x));
        assert(!dl.to_set().contains(x));
        lemma_count_matches_is_score(dl, b);
        assert(dl.push(x) =~= items);
        lemma_to_set_push(dl, x);
        if b.contains(x) {
            assert(items.to_set().intersect(b) =~= dl.to_set().intersect(b).insert(x));
            assert(!dl.to_set().intersect(b).contains(x));
        } else {
            assert(items.to_set().intersect(b) =~= dl.to_set().intersect(b));
        }
    }
}

/// True when some element of `set` holds exactly the characters of `x`.
fn contains_vec(set: &Vec<Vec<char>>, x: &Vec<char>) -> (r: bool)
    ensures
        r == set.deep_view().contains(x@),
{
    let n = set.len();
    let mut j: usize = 0;
    while j < n
        invariant
            j <= n,
            n == set@.len(),
            set@.len() == set.deep_view().len(),
            forall|k: int| 0 <= k < j ==> set.deep_view()[k] != x@,
        decreases n - j,
    {
        proof {
            assert(set.deep_view()[j as int] == set@[j as int]@);
        }
        if char_vec_eq(&set[j], x) {
            assert(set.deep_view()[j as int] == x@);
            return true;
        }
        j = j + 1;
    }
    assert(!set.deep_view().contains(x@));
    false
}

/// A fingerprint: the shingle set of one request body, together with the token
/// sequence it was built from.
#[derive(Debug, Clone)]
pub struct Ngrams {
    n: usize,
    src: Vec<Vec<char>>,
    set: Vec<Vec<char>>,
}

impl Ngrams {
    /// The token sequence of the body this fingerprint was built from.
    pub closed spec fn tokens(&self) -> Seq<Seq<char>> {
        self.src.deep_view()
    }

    /// The shingle set.
    pub closed spec fn shingle_set(&self) -> Set<Seq<char>> {
        self.set.deep_view().to_set()
    }

    /// The window width.
    pub closed spec fn width(&self) -> usize {
        self.n
    }

    /// The stored shingles list each set element once, and there are few
    /// enough of them that a score always fits in 32 bits.
    pub closed spec fn wf(&self) -> bool {
        &&& self.set.deep_view().no_duplicates()
        &&& self.set@.len() <= u32::MAX
    }

    /// The shingle set of a well-formed fingerprint is finite.
    pub proof fn lemma_shingle_set_finite(&self)
        requires
            self.wf(),
        ensures
            self.shingle_set().finite(),
    {
        broadcast use vstd::seq_lib::seq_to_set_is_finite;

    }

    /// Builds the fingerprint of body `s` with window width `n`: tokenize on
    /// whitespace, then collect every window of `n` consecutive tokens joined
    /// by single spaces (all tokens as one shingle when there are fewer than
    /// `n`). Deterministic: the result's token sequence and shingle set are
    /// functions of `s` and `n` alone, so equal inputs give equal
    /// fingerprints.
    pub fn new(n: usize, s: String) -> (r: Self)
        requires
            s@.len() < u32::MAX,
        ensures
            r.wf(),
            r.width() == n,
            r.tokens() == tokens_of(s@),
            r.shingle_set() == fingerprint_of(s@, n as int),
    {
        let chars = chars_of(s.as_str());
        let src = tokenize(&chars);
        proof {
            lemma_tokens_of_len(s@);
        }
        let ghost shingles = shingles_of(src.deep_view(), n as int);
        let mut set: Vec<Vec<char>> = Vec::new();
        if src.len() < n {
            let sh = join_window(&src, 0, src.len());
            proof {
                assert(src.deep_view().subrange(0, src.deep_view().len() as int) =~= src.deep_view());
            }
            set.push(sh);
            proof {
                assert(set.deep_view() =~~= seq![join_spaces(src.deep_view())]);
                assert(set.deep_view().to_set() =~= shingles.to_set());
            }
        } else {
            let count = src.len() - n + 1;
            let mut i: usize = 0;
            proof {
                assert(shingles.take(0) =~= Seq::<Seq<char>>::empty());
                assert(shingles.take(0).to_set() =~= Seq::<Seq<char>>::empty().to_set());
                assert(set.deep_view().to_set() =~= Seq::<Seq<char>>::empty().to_set());
            }
            while i < count
                invariant
                    i <= count,
                    count == src.deep_view().len() - n + 1,
                    n <= src.deep_view().len() <= u32::MAX - 1,
                    src@.len() == src.deep_view().len(),
                    shingles == shingles_of(src.deep_view(), n as int),
                    shingles.len() == count,
                    set.deep_view().to_set() == shingles.take(i as int).to_set(),
                    set.deep_view().no_duplicates(),
                    set@.len() <= i,
                decreases count - i,
            {
                let sh = join_window(&src, i, i + n);
                assert(sh@ == shingles[i as int]);
                let present = contains_vec(&set, &sh);
                proof {
                    assert(set.deep_view().contains(sh@) == set.deep_view().to_set().contains(
                        sh@,
                    ));
                    assert(shingles.take(i + 1).drop_last() =~= shingles.take(i as int));
                    lemma_to_set_push(shingles.take(i as int), shingles[i as int]);
                    assert(shingles.take(i + 1) =~= shingles.take(i as int).push(
                        shingles[i as int],
                    ));
                }
                if !present {
                    let ghost old_set = set.deep_view();
                    set.push(sh);
                    proof {
                        assert(set.deep_view() =~~= old_set.push(sh@));
                        lemma_to_set_push(old_set, sh@);
                        assert(set.deep_view().to_set() =~= shingles.take(i + 1).to_set());
                    }
                } else {
                    proof {
                        assert(set.deep_view().to_set() =~= shingles.take(i + 1).to_set());
                    }
                }
                i = i + 1;
            }
            proof {
                assert(shingles.take(count as int) =~= shingles);
            }
        }
        Ngrams { n, src, set }
    }

    /// The similarity of two fingerprints: how many shingles they share.
    pub fn compatibility_score(&self, other: &Self) -> (r: u32)
        requires
            self.wf(),
            other.wf(),
        ensures
            r as nat == score_of(self.shingle_set(), other.shingle_set()),
    {
        broadcast use vstd::seq_lib::seq_to_set_is_finite;

        let items = &self.set;
        let n = items.len();
        let mut count: u32 = 0;
        let mut i: usize = 0;
        proof {
            assert(items.deep_view().take(0) =~= Seq::<Seq<char>>::empty());
        }
        while i < n
            invariant
                i <= n,
                n == items@.len(),
                items@.len() == items.deep_view().len(),
                items@.len() <= u32::MAX,
                self.wf(),
                other.wf(),
                items == &self.set,
                count <= i,
                count as nat == count_matches(items.deep_view().take(i as int), other.shingle_set()),
            decreases n - i,
        {
            let sh = &items[i];
            let present = contains_vec(&other.set, sh);
            proof {
                assert(present == other.shingle_set().contains(sh@));
                assert(items.deep_view().take(i + 1).drop_last() =~= items.deep_view().take(
                    i as int,
                ));
                assert(items.deep_view().take(i + 1).last() == items.deep_view()[i as int]);
                assert(items.deep_view()[i as int] == sh@);
            }
            if present {
                count = count + 1;
            }
            i = i + 1;
        }
        proof {
            assert(items.deep_view().take(n as int) =~= items.deep_view());
            other.lemma_shingle_set_finite();
            lemma_count_matches_is_score(items.deep_view(), other.shingle_set());
        }
        count
    }
}

} // verus!
