//! Key normalization: an address-like string is canonicalized by removing
//! whitespace, lowercasing ASCII letters, and then deleting every literal
//! `0x` marker (repeatedly, until none is left). Two strings resolve to the
//! same record exactly when their normalized forms are equal.

use vstd::prelude::*;

verus! {

/// Whitespace characters that normalization removes.
pub open spec fn is_space_char(c: char) -> bool {
    c == ' ' || c == '\t' || c == '\n' || c == '\r'
}

/// ASCII lowercasing of a single character; all other characters unchanged.
pub open spec fn lower_char(c: char) -> char {
    match c {
        'A' => 'a',
        'B' => 'b',
        'C' => 'c',
        'D' => 'd',
        'E' => 'e',
        'F' => 'f',
        'G' => 'g',
        'H' => 'h',
        'I' => 'i',
        'J' => 'j',
        'K' => 'k',
        'L' => 'l',
        'M' => 'm',
        'N' => 'n',
        'O' => 'o',
        'P' => 'p',
        'Q' => 'q',
        'R' => 'r',
        'S' => 's',
        'T' => 't',
        'U' => 'u',
        'V' => 'v',
        'W' => 'w',
        'X' => 'x',
        'Y' => 'y',
        'Z' => 'z',
        _ => c,
    }
}

/// First pass: drop whitespace and lowercase the rest.
pub open spec fn canon_chars(s: Seq<char>) -> Seq<char>
    decreases s.len(),
{
    if s.len() == 0 {
        Seq::<char>::empty()
    } else if is_space_char(s[0]) {
        canon_chars(s.skip(1))
    } else {
        seq![lower_char(s[0])] + canon_chars(s.skip(1))
    }
}

/// One left-to-right sweep deleting non-overlapping `0x` pairs.
pub open spec fn strip_marker_once(s: Seq<char>) -> Seq<char>
    decreases s.len(),
{
    if s.len() >= 2 && s[0] == '0' && s[1] == 'x' {
        strip_marker_once(s.skip(2))
    } else if s.len() == 0 {
        s
    } else {
        seq![s[0]] + strip_marker_once(s.skip(1))
    }
}

/// Sweeps repeated until no `0x` pair is left (a deletion can bring a new
/// `0`/`x` pair together, so one sweep is not always enough).
pub open spec fn strip_marker(s: Seq<char>) -> Seq<char>
    decreases s.len(),
{
    let t = strip_marker_once(s);
    if t.len() < s.len() {
        strip_marker(t)
    } else {
        s
    }
}

/// The normalized form of a candidate key.
pub open spec fn norm_spec(s: Seq<char>) -> Seq<char> {
    strip_marker(canon_chars(s))
}

/// A character that the first pass leaves unchanged.
pub open spec fn char_fixed(c: char) -> bool {
    !is_space_char(c) && lower_char(c) == c
}

/// A string the first pass leaves unchanged, character by character.
pub open spec fn all_fixed(s: Seq<char>) -> bool {
    forall|i: int| 0 <= i < s.len() ==> char_fixed(#[trigger] s[i])
}

pub proof fn lemma_strip_once_len(s: Seq<char>)
    ensures
        strip_marker_once(s).len() <= s.len(),
    decreases s.len(),
{
    if s.len() >= 2 && s[0] == '0' && s[1] == 'x' {
        lemma_strip_once_len(s.skip(2));
    } else if s.len() == 0 {
    } else {
        lemma_strip_once_len(s.skip(1));
    }
}

pub proof fn lemma_strip_once_fixpoint(s: Seq<char>)
    requires
        strip_marker_once(s).len() == s.len(),
    ensures
        strip_marker_once(s) == s,
    decreases s.len(),
{
    if s.len() >= 2 && s[0] == '0' && s[1] == 'x' {
        lemma_strip_once_len(s.skip(2));
        assert(false);
    } else if s.len() == 0 {
        assert(strip_marker_once(s) =~= s);
    } else {
        lemma_strip_once_len(s.skip(1));
        lemma_strip_once_fixpoint(s.skip(1));
        assert(strip_marker_once(s) =~= s);
    }
}

pub proof fn lemma_strip_fixpoint(s: Seq<char>)
    ensures
        strip_marker_once(strip_marker(s)) == strip_marker(s),
        strip_marker(strip_marker(s)) == strip_marker(s),
    decreases s.len(),
{
    let t = strip_marker_once(s);
    lemma_strip_once_len(s);
    if t.len() < s.len() {
        lemma_strip_fixpoint(t);
    } else {
        lemma_strip_once_fixpoint(s);
    }
}

pub proof fn lemma_lower_char_fixed(c: char)
    requires
        !is_space_char(c),
    ensures
        char_fixed(lower_char(c)),
{
}

pub proof fn lemma_canon_all_fixed(s: Seq<char>)
    ensures
        all_fixed(canon_chars(s)),
    decreases s.len(),
{
    if s.len() == 0 {
    } else if is_space_char(s[0]) {
        lemma_canon_all_fixed(s.skip(1));
    } else {
        lemma_canon_all_fixed(s.skip(1));
        lemma_lower_char_fixed(s[0]);
        assert forall|i: int| 0 <= i < canon_chars(s).len() implies char_fixed(
            #[trigger] canon_chars(s)[i],
        ) by {
            if i > 0 {
                assert(canon_chars(s)[i] == canon_chars(s.skip(1))[i - 1]);
            }
        }
    }
}

pub proof fn lemma_canon_identity(s: Seq<char>)
    requires
        all_fixed(s),
    ensures
        canon_chars(s) == s,
    decreases s.len(),
{
    if s.len() == 0 {
        assert(canon_chars(s) =~= s);
    } else {
        assert(char_fixed(s[0]));
        assert(all_fixed(s.skip(1))) by {
            assert forall|i: int| 0 <= i < s.skip(1).len() implies char_fixed(
                #[trigger] s.skip(1)[i],
            ) by {
                assert(s.skip(1)[i] == s[i + 1]);
            }
        }
        lemma_canon_identity(s.skip(1));
        assert(canon_chars(s) =~= s);
    }
}

pub proof fn lemma_strip_once_fixed(s: Seq<char>)
    requires
        all_fixed(s),
    ensures
        all_fixed(strip_marker_once(s)),
    decreases s.len(),
{
    if s.len() >= 2 && s[0] == '0' && s[1] == 'x' {
        assert(all_fixed(s.skip(2))) by {
            assert forall|i: int| 0 <= i < s.skip(2).len() implies char_fixed(
                #[trigger] s.skip(2)[i],
            ) by {
                assert(s.skip(2)[i] == s[i + 2]);
            }
        }
        lemma_strip_once_fixed(s.skip(2));
    } else if s.len() == 0 {
    } else {
        assert(all_fixed(s.skip(1))) by {
            assert forall|i: int| 0 <= i < s.skip(1).len() implies char_fixed(
                #[trigger] s.skip(1)[i],
            ) by {
                assert(s.skip(1)[i] == s[i + 1]);
            }
        }
        lemma_strip_once_fixed(s.skip(1));
        assert forall|i: int| 0 <= i < strip_marker_once(s).len() implies char_fixed(
            #[trigger] strip_marker_once(s)[i],
        ) by {
            if i > 0 {
                assert(strip_marker_once(s)[i] == strip_marker_once(s.skip(1))[i - 1]);
            }
        }
    }
}

pub proof fn lemma_strip_fixed(s: Seq<char>)
    requires
        all_fixed(s),
    ensures
        all_fixed(strip_marker(s)),
    decreases s.len(),
{
    let t = strip_marker_once(s);
    lemma_strip_once_fixed(s);
    if t.len() < s.len() {
        lemma_strip_fixed(t);
    }
}

/// Normalization is idempotent: normalizing an already normalized string
/// gives it back unchanged.
pub proof fn lemma_normalize_idempotent(s: Seq<char>)
    ensures
        norm_spec(norm_spec(s)) == norm_spec(s),
{
    lemma_canon_all_fixed(s);
    lemma_strip_fixed(canon_chars(s));
    lemma_canon_identity(norm_spec(s));
    lemma_strip_fixpoint(canon_chars(s));
}

proof fn lemma_once_shrinks_on_marker(s: Seq<char>, i: int)
    requires
        0 <= i,
        i + 1 < s.len(),
        s[i] == '0',
        s[i + 1] == 'x',
    ensures
        strip_marker_once(s).len() < s.len(),
    decreases s.len(),
{
    if s.len() >= 2 && s[0] == '0' && s[1] == 'x' {
        lemma_strip_once_len(s.skip(2));
    } else {
        assert(i >= 1);
        assert(s.skip(1)[i - 1] == s[i] && s.skip(1)[i] == s[i + 1]);
        lemma_once_shrinks_on_marker(s.skip(1), i - 1);
    }
}

/// A normalized string holds no `0x` marker anywhere: every occurrence is
/// removed, not only a leading one.
pub proof fn lemma_normalized_no_marker(s: Seq<char>, i: int)
    requires
        0 <= i,
        i + 1 < norm_spec(s).len(),
    ensures
        !(norm_spec(s)[i] == '0' && norm_spec(s)[i + 1] == 'x'),
{
    if norm_spec(s)[i] == '0' && norm_spec(s)[i + 1] == 'x' {
        lemma_strip_fixpoint(canon_chars(s));
        lemma_once_shrinks_on_marker(norm_spec(s), i);
    }
}

/// Appends one character to a string.
///
/// Relies on `String::push` of std: it appends the given character to the
/// end of the string.
pub assume_specification[ String::push ](s: &mut String, c: char)
    ensures
        final(s)@ == old(s)@.push(c),
;

fn is_space_exec(c: char) -> (r: bool)
    ensures
        r == is_space_char(c),
{
    c == ' ' || c == '\t' || c == '\n' || c == '\r'
}

fn lower_char_exec(c: char) -> (r: char)
    ensures
        r == lower_char(c),
{
    match c {
        'A' => 'a',
        'B' => 'b',
        'C' => 'c',
        'D' => 'd',
        'E' => 'e',
        'F' => 'f',
        'G' => 'g',
        'H' => 'h',
        'I' => 'i',
        'J' => 'j',
        'K' => 'k',
        'L' => 'l',
        'M' => 'm',
        'N' => 'n',
        'O' => 'o',
        'P' => 'p',
        'Q' => 'q',
        'R' => 'r',
        'S' => 's',
        'T' => 't',
        'U' => 'u',
        'V' => 'v',
        'W' => 'w',
        'X' => 'x',
        'Y' => 'y',
        'Z' => 'z',
        _ => c,
    }
}

fn canon_exec(s: &str) -> (r: String)
    ensures
        r@ == canon_chars(s@),
{
    let n = s.unicode_len();
    let mut r = String::new();
    let mut i: usize = 0;
    proof {
        assert(s@.skip(0) =~= s@);
        assert(r@ + canon_chars(s@) =~= canon_chars(s@));
    }
    while i < n
        invariant
            i <= n,
            n == s@.len(),
            r@ + canon_chars(s@.skip(i as int)) == canon_chars(s@),
        decreases n - i,
    {
        let c = s.get_char(i);
        proof {
            assert(s@.skip(i as int)[0] == s@[i as int]);
            assert(s@.skip(i as int).skip(1) =~= s@.skip(i as int + 1));
        }
        let ghost r_old = r@;
        if !is_space_exec(c) {
            let lc = lower_char_exec(c);
            r.push(lc);
            proof {
                assert(r@ + canon_chars(s@.skip(i as int + 1)) =~= r_old + canon_chars(
                    s@.skip(i as int),
                ));
            }
        }
        i = i + 1;
    }
    proof {
        assert(s@.skip(n as int) =~= Seq::<char>::empty());
        assert(r@ + canon_chars(s@.skip(n as int)) =~= r@);
    }
    r
}

fn strip_once_exec(s: &String) -> (r: String)
    ensures
        r@ == strip_marker_once(s@),
{
    let n = s.as_str().unicode_len();
    let mut r = String::new();
    let mut i: usize = 0;
    proof {
        assert(s@.skip(0) =~= s@);
        assert(r@ + strip_marker_once(s@) =~= strip_marker_once(s@));
    }
    while i < n
        invariant
            i <= n,
            n == s@.len(),
            r@ + strip_marker_once(s@.skip(i as int)) == strip_marker_once(s@),
        decreases n - i,
    {
        let c = s.as_str().get_char(i);
        proof {
            assert(s@.skip(i as int)[0] == s@[i as int]);
        }
        let pair = i + 1 < n && c == '0' && s.as_str().get_char(i + 1) == 'x';
        if pair {
            proof {
                assert(s@.skip(i as int)[1] == s@[i as int + 1]);
                assert(s@.skip(i as int).skip(2) =~= s@.skip(i as int + 2));
            }
            i = i + 2;
        } else {
            proof {
                if i + 1 < n {
                    assert(s@.skip(i as int)[1] == s@[i as int + 1]);
                }
                assert(s@.skip(i as int).skip(1) =~= s@.skip(i as int + 1));
            }
            let ghost r_old = r@;
            r.push(c);
            proof {
                assert(r@ + strip_marker_once(s@.skip(i as int + 1)) =~= r_old
                    + strip_marker_once(s@.skip(i as int)));
            }
            i = i + 1;
        }
    }
    proof {
        assert(s@.skip(n as int) =~= Seq::<char>::empty());
        assert(r@ + strip_marker_once(s@.skip(n as int)) =~= r@);
    }
    r
}

/// Normalizes a candidate key: whitespace removed, ASCII letters lowercased,
/// every literal `0x` marker deleted.
pub fn normalize(s: &str) -> (r: String)
    ensures
        r@ == norm_spec(s@),
{
    let mut cur = canon_exec(s);
    loop
        invariant
            strip_marker(cur@) == norm_spec(s@),
        decreases cur@.len(),
    {
        let next = strip_once_exec(&cur);
        proof {
            lemma_strip_once_len(cur@);
        }
        if next.as_str().unicode_len() == cur.as_str().unicode_len() {
            proof {
                lemma_strip_once_fixpoint(cur@);
            }
            return cur;
        }
        cur = next;
    }
}

} // verus!
