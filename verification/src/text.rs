//! Character-level text model: whitespace splitting, trimming and joining,
//! UTF-8 decoding, and decimal rendering. These are the string operations the
//! fingerprint, the control plane and the transcript dump are specified over.
use vstd::prelude::*;

verus! {

use vstd::utf8::{valid_utf8, decode_utf8};

/// The Unicode `White_Space` characters: exactly what `str::trim` and
/// `str::split_whitespace` treat as separators.
pub open spec fn is_space_char(c: char) -> bool {
    ||| c == '\u{0009}'
    ||| c == '\u{000A}'
    ||| c == '\u{000B}'
    ||| c == '\u{000C}'
    ||| c == '\u{000D}'
    ||| c == ' '
    ||| c == '\u{0085}'
    ||| c == '\u{00A0}'
    ||| c == '\u{1680}'
    ||| c == '\u{2000}'
    ||| c == '\u{2001}'
    ||| c == '\u{2002}'
    ||| c == '\u{2003}'
    ||| c == '\u{2004}'
    ||| c == '\u{2005}'
    ||| c == '\u{2006}'
    ||| c == '\u{2007}'
    ||| c == '\u{2008}'
    ||| c == '\u{2009}'
    ||| c == '\u{200A}'
    ||| c == '\u{2028}'
    ||| c == '\u{2029}'
    ||| c == '\u{202F}'
    ||| c == '\u{205F}'
    ||| c == '\u{3000}'
}

pub fn space_char(c: char) -> (r: bool)
    ensures
        r == is_space_char(c),
{
    c == '\u{0009}' || c == '\u{000A}' || c == '\u{000B}' || c == '\u{000C}' || c == '\u{000D}'
        || c == ' ' || c == '\u{0085}' || c == '\u{00A0}' || c == '\u{1680}' || c == '\u{2000}'
        || c == '\u{2001}' || c == '\u{2002}' || c == '\u{2003}' || c == '\u{2004}' || c
        == '\u{2005}' || c == '\u{2006}' || c == '\u{2007}' || c == '\u{2008}' || c == '\u{2009}'
        || c == '\u{200A}' || c == '\u{2028}' || c == '\u{2029}' || c == '\u{202F}' || c
        == '\u{205F}' || c == '\u{3000}'
}

/// The characters of `s`, as a vector.
pub fn chars_of(s: &str) -> (r: Vec<char>)
    ensures
        r@ == s@,
{
    let n = s.unicode_len();
    let mut r: Vec<char> = Vec::new();
    let mut i: usize = 0;
    while i < n
        invariant
            i <= n,
            n == s@.len(),
            r@ == s@.take(i as int),
        decreases n - i,
    {
        let c = s.get_char(i);
        r.push(c);
        i = i + 1;
        assert(r@ =~= s@.take(i as int));
    }
    assert(s@.take(n as int) =~= s@);
    r
}

/// The whitespace-separated words of `s`, in order: what splitting on any run
/// of whitespace leaves.
pub open spec fn tokens_of(s: Seq<char>) -> Seq<Seq<char>>
    decreases s.len(),
{
    if s.len() == 0 {
        Seq::empty()
    } else {
        let rest = tokens_of(s.drop_first());
        if is_space_char(s[0]) {
            rest
        } else if s.len() > 1 && !is_space_char(s[1]) {
            seq![seq![s[0]] + rest.first()] + rest.drop_first()
        } else {
            seq![seq![s[0]]] + rest
        }
    }
}

/// A string that starts with a non-space character splits into at least one
/// word, and its first word is non-empty and starts with that character.
pub proof fn lemma_tokens_of_nonspace_head(s: Seq<char>)
    requires
        s.len() > 0,
        !is_space_char(s[0]),
    ensures
        tokens_of(s).len() >= 1,
        tokens_of(s).first().len() >= 1,
        tokens_of(s).first()[0] == s[0],
    decreases s.len(),
{
    if s.len() > 1 && !is_space_char(s[1]) {
        lemma_tokens_of_nonspace_head(s.drop_first());
    }
}

/// There are never more words than characters.
pub proof fn lemma_tokens_of_len(s: Seq<char>)
    ensures
        tokens_of(s).len() <= s.len(),
    decreases s.len(),
{
    if s.len() > 0 {
        lemma_tokens_of_len(s.drop_first());
        if !is_space_char(s[0]) && s.len() > 1 && !is_space_char(s[1]) {
            lemma_tokens_of_nonspace_head(s.drop_first());
        }
    }
}

/// The words of `s`, computed back to front so that each step matches one
/// unfolding of `tokens_of`.
pub fn tokenize(s: &Vec<char>) -> (r: Vec<Vec<char>>)
    ensures
        r.deep_view() == tokens_of(s@),
{
    let n = s.len();
    let mut toks: Vec<Vec<char>> = Vec::new();
    let mut i: usize = n;
    while i > 0
        invariant
            i <= n,
            n == s@.len(),
            toks.deep_view() == tokens_of(s@.skip(i as int)),
        decreases i,
    {
        i = i - 1;
        let c = s[i];
        proof {
            assert(s@.skip(i as int).drop_first() =~= s@.skip(i as int + 1));
            assert(s@.skip(i as int)[0] == s@[i as int]);
        }
        if space_char(c) {
            // A space adds no token: tokens_of(skip(i)) == tokens_of(skip(i + 1)).
        } else if i + 1 < n && !space_char(s[i + 1]) {
            proof {
                assert(s@.skip(i as int)[1] == s@[i as int + 1]);
                lemma_tokens_of_nonspace_head(s@.skip(i as int + 1));
            }
            let mut first = toks.remove(0);
            first.insert(0, c);
            toks.insert(0, first);
            proof {
                assert(toks.deep_view() =~~= tokens_of(s@.skip(i as int)));
            }
        } else {
            let mut word: Vec<char> = Vec::new();
            word.push(c);
            toks.insert(0, word);
            proof {
                assert(word.deep_view() =~= seq![s@[i as int]]);
                assert(toks.deep_view() =~~= tokens_of(s@.skip(i as int)));
            }
        }
    }
    proof {
        assert(s@.skip(0) =~= s@);
    }
    toks
}

/// `s` without leading whitespace.
pub open spec fn trim_front(s: Seq<char>) -> Seq<char>
    decreases s.len(),
{
    if s.len() > 0 && is_space_char(s.first()) {
        trim_front(s.drop_first())
    } else {
        s
    }
}

/// `s` without trailing whitespace.
pub open spec fn trim_back(s: Seq<char>) -> Seq<char>
    decreases s.len(),
{
    if s.len() > 0 && is_space_char(s.last()) {
        trim_back(s.drop_last())
    } else {
        s
    }
}

/// `s` without leading and trailing whitespace: what `str::trim` leaves.
pub open spec fn trim_of(s: Seq<char>) -> Seq<char> {
    trim_back(trim_front(s))
}

/// Trims whitespace from both ends of `s`.
pub fn trim(s: &Vec<char>) -> (r: Vec<char>)
    ensures
        r@ == trim_of(s@),
{
    let n = s.len();
    proof {
        assert(s@.skip(0) =~= s@);
    }
    let mut start: usize = 0;
    while start < n && space_char(s[start])
        invariant
            start <= n,
            n == s@.len(),
            trim_front(s@) == trim_front(s@.skip(start as int)),
        decreases n - start,
    {
        proof {
            assert(s@.skip(start as int).drop_first() =~= s@.skip(start as int + 1));
        }
        start = start + 1;
    }
    proof {
        if start == n {
            assert(s@.skip(start as int) =~= Seq::<char>::empty());
        }
        assert(trim_front(s@) == s@.skip(start as int));
    }
    let ghost t = s@.skip(start as int);
    proof {
        assert(t.take(n - start as int) =~= t);
    }
    let mut end: usize = n;
    while end > start && space_char(s[end - 1])
        invariant
            start <= end <= n,
            n == s@.len(),
            t == s@.skip(start as int),
            trim_back(t) == trim_back(t.take(end - start as int)),
        decreases end,
    {
        proof {
            let m = end - start as int;
            assert(t.take(m).last() == s@[end - 1]);
            assert(t.take(m).drop_last() =~= t.take(m - 1));
        }
        end = end - 1;
    }
    proof {
        let m = end - start as int;
        if end == start {
            assert(t.take(m) =~= Seq::<char>::empty());
        } else {
            assert(t.take(m).last() == s@[end - 1]);
        }
        assert(trim_of(s@) == t.take(m));
    }
    let mut r: Vec<char> = Vec::new();
    let mut j: usize = start;
    while j < end
        invariant
            start <= j <= end <= n,
            n == s@.len(),
            r@ == s@.subrange(start as int, j as int),
        decreases end - j,
    {
        r.push(s[j]);
        j = j + 1;
        assert(r@ =~= s@.subrange(start as int, j as int));
    }
    proof {
        assert(s@.subrange(start as int, end as int) =~= t.take(end - start as int));
    }
    r
}

/// The words of `toks`, joined by single spaces.
pub open spec fn join_spaces(toks: Seq<Seq<char>>) -> Seq<char>
    decreases toks.len(),
{
    if toks.len() == 0 {
        Seq::empty()
    } else if toks.len() == 1 {
        toks[0]
    } else {
        join_spaces(toks.drop_last()) + seq![' '] + toks.last()
    }
}

/// Joins the words `toks[from..to]` with single spaces.
pub fn join_window(toks: &Vec<Vec<char>>, from: usize, to: usize) -> (r: Vec<char>)
    requires
        from <= to <= toks@.len(),
    ensures
        r@ == join_spaces(toks.deep_view().subrange(from as int, to as int)),
{
    let ghost w = toks.deep_view().subrange(from as int, to as int);
    let mut r: Vec<char> = Vec::new();
    let mut k: usize = from;
    while k < to
        invariant
            from <= k <= to <= toks@.len(),
            w == toks.deep_view().subrange(from as int, to as int),
            toks.deep_view().len() == toks@.len(),
            r@ == join_spaces(w.take(k - from as int)),
        decreases to - k,
    {
        if k > from {
            r.push(' ');
        }
        let tok = &toks[k];
        let mut j: usize = 0;
        let ghost before = r@;
        while j < tok.len()
            invariant
                j <= tok@.len(),
                r@ == before + tok@.take(j as int),
            decreases tok@.len() - j,
        {
            r.push(tok[j]);
            j = j + 1;
            assert(r@ =~= before + tok@.take(j as int));
        }
        proof {
            let m = k - from as int;
            assert(tok@.take(tok@.len() as int) =~= tok@);
            assert(w[m] == tok.deep_view());
            assert(tok.deep_view() =~= tok@);
            assert(w.take(m + 1).drop_last() =~= w.take(m));
            assert(w.take(m + 1).last() == w[m]);
            if k > from {
                assert(r@ =~= join_spaces(w.take(m)) + seq![' '] + w[m]);
            } else {
                assert(r@ =~= w[m]);
            }
        }
        k = k + 1;
    }
    proof {
        assert(w.take(to - from as int) =~= w);
    }
    r
}

/// True when the two vectors hold the same characters.
pub fn char_vec_eq(a: &Vec<char>, b: &Vec<char>) -> (r: bool)
    ensures
        r == (a@ == b@),
{
    if a.len() != b.len() {
        return false;
    }
    let n = a.len();
    let mut i: usize = 0;
    while i < n
        invariant
            i <= n,
            n == a@.len() == b@.len(),
            forall|j: int| 0 <= j < i ==> a@[j] == b@[j],
        decreases n - i,
    {
        if a[i] != b[i] {
            return false;
        }
        i = i + 1;
    }
    proof {
        assert(a@ =~= b@);
    }
    true
}

/// True when the vector holds exactly the characters of `s`.
pub fn chars_eq_str(v: &Vec<char>, s: &str) -> (r: bool)
    ensures
        r == (v@ == s@),
{
    let n = s.unicode_len();
    if v.len() != n {
        return false;
    }
    let mut i: usize = 0;
    while i < n
        invariant
            i <= n,
            n == v@.len() == s@.len(),
            forall|j: int| 0 <= j < i ==> v@[j] == s@[j],
        decreases n - i,
    {
        if v[i] != s.get_char(i) {
            return false;
        }
        i = i + 1;
    }
    proof {
        assert(v@ =~= s@);
    }
    true
}

/// Relies on std's `str::from_utf8`: it accepts exactly the byte strings that
/// vstd's UTF-8 model calls valid, and decodes them to the characters that
/// model gives (vstd's own specification of `str::from_utf8_unchecked` assumes
/// the same agreement).
#[verifier::external_body]
pub fn decode_utf8_vec(bytes: &Vec<u8>) -> (r: Option<String>)
    ensures
        r is Some <==> valid_utf8(bytes@),
        r matches Some(s) ==> s@ == decode_utf8(bytes@),
{
    match std::str::from_utf8(bytes.as_slice()) {
        Ok(s) => Some(s.to_string()),
        Err(_) => None,
    }
}

/// The decimal digit character for `d`.
pub open spec fn digit_char(d: nat) -> char {
    if d == 0 {
        '0'
    } else if d == 1 {
        '1'
    } else if d == 2 {
        '2'
    } else if d == 3 {
        '3'
    } else if d == 4 {
        '4'
    } else if d == 5 {
        '5'
    } else if d == 6 {
        '6'
    } else if d == 7 {
        '7'
    } else if d == 8 {
        '8'
    } else {
        '9'
    }
}

/// The decimal rendering of `n`, without leading zeros (except for zero
/// itself).
pub open spec fn dec_str(n: nat) -> Seq<char>
    decreases n,
{
    if n < 10 {
        seq![digit_char(n)]
    } else {
        dec_str(n / 10).push(digit_char(n % 10))
    }
}

/// Appends the decimal rendering of `n` to `out`.
pub fn append_decimal(out: &mut String, n: u64)
    ensures
        final(out)@ == old(out)@ + dec_str(n as nat),
    decreases n,
{
    if n >= 10 {
        append_decimal(out, n / 10);
    }
    let d = n % 10;
    let digit: &str = if d == 0 {
        "0"
    } else if d == 1 {
        "1"
    } else if d == 2 {
        "2"
    } else if d == 3 {
        "3"
    } else if d == 4 {
        "4"
    } else if d == 5 {
        "5"
    } else if d == 6 {
        "6"
    } else if d == 7 {
        "7"
    } else if d == 8 {
        "8"
    } else {
        "9"
    };
    proof {
        reveal_strlit("0");
        reveal_strlit("1");
        reveal_strlit("2");
        reveal_strlit("3");
        reveal_strlit("4");
        reveal_strlit("5");
        reveal_strlit("6");
        reveal_strlit("7");
        reveal_strlit("8");
        reveal_strlit("9");
        assert(digit@ =~= seq![digit_char((n % 10) as nat)]);
    }
    out.append(digit);
    proof {
        if n >= 10 {
            assert(old(out)@ + dec_str((n / 10) as nat) + digit@ =~= old(out)@ + dec_str(
                n as nat,
            ));
        } else {
            assert(old(out)@ + digit@ =~= old(out)@ + dec_str(n as nat));
        }
    }
}

} // verus!
