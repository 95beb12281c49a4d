//! Verified helpers over `&str` / `String`, stated against `Seq<char>` views.
use vstd::prelude::*;
use vstd::string::StrSliceExecFns;
use vstd::string::StringExecFns;

verus! {

/// The pattern `p` occurs in `s` at position `i`.
pub open spec fn occurs_at(s: Seq<char>, p: Seq<char>, i: int) -> bool {
    0 <= i && i + p.len() <= s.len() && s.subrange(i, i + p.len() as int) == p
}

/// The pattern `p` occurs somewhere in `s`.
pub open spec fn contains_seq(s: Seq<char>, p: Seq<char>) -> bool {
    exists|i: int| occurs_at(s, p, i)
}

/// Left-to-right, non-overlapping replacement of `from` by `to`.
pub open spec fn replace_seq(s: Seq<char>, from: Seq<char>, to: Seq<char>) -> Seq<char>
    decreases s.len(),
        when from.len() > 0
{
    if s.len() < from.len() {
        s
    } else if s.subrange(0, from.len() as int) == from {
        to + replace_seq(s.subrange(from.len() as int, s.len() as int), from, to)
    } else {
        seq![s[0]] + replace_seq(s.subrange(1, s.len() as int), from, to)
    }
}

/// Splitting `s` at every occurrence of `sep`; a separator at either end or
/// two adjacent separators yield empty segments, as `str::split` does.
pub open spec fn split_seq(s: Seq<char>, sep: char) -> Seq<Seq<char>>
    decreases s.len(),
{
    if s.len() == 0 {
        seq![Seq::<char>::empty()]
    } else if s[0] == sep {
        seq![Seq::<char>::empty()] + split_seq(s.subrange(1, s.len() as int), sep)
    } else {
        let rest = split_seq(s.subrange(1, s.len() as int), sep);
        seq![seq![s[0]] + rest[0]] + rest.subrange(1, rest.len() as int)
    }
}

pub proof fn lemma_split_seq_len(s: Seq<char>, sep: char)
    ensures
        split_seq(s, sep).len() >= 1,
    decreases s.len(),
{
    if s.len() == 0 {
    } else {
        lemma_split_seq_len(s.subrange(1, s.len() as int), sep);
    }
}

/// Whitespace as far as trimming is concerned.
pub open spec fn is_ws(c: char) -> bool {
    c == ' ' || c == '\t' || c == '\r' || c == '\n'
}

pub open spec fn trim_start_seq(s: Seq<char>) -> Seq<char>
    decreases s.len(),
{
    if s.len() > 0 && is_ws(s[0]) {
        trim_start_seq(s.subrange(1, s.len() as int))
    } else {
        s
    }
}

pub open spec fn trim_end_seq(s: Seq<char>) -> Seq<char>
    decreases s.len(),
{
    if s.len() > 0 && is_ws(s[s.len() - 1]) {
        trim_end_seq(s.subrange(0, s.len() - 1))
    } else {
        s
    }
}

/// `str::trim` restricted to the four ASCII whitespace characters.
pub open spec fn trim_seq(s: Seq<char>) -> Seq<char> {
    trim_end_seq(trim_start_seq(s))
}

pub open spec fn trim_char_start_seq(s: Seq<char>, c: char) -> Seq<char>
    decreases s.len(),
{
    if s.len() > 0 && s[0] == c {
        trim_char_start_seq(s.subrange(1, s.len() as int), c)
    } else {
        s
    }
}

pub open spec fn trim_char_end_seq(s: Seq<char>, c: char) -> Seq<char>
    decreases s.len(),
{
    if s.len() > 0 && s[s.len() - 1] == c {
        trim_char_end_seq(s.subrange(0, s.len() - 1), c)
    } else {
        s
    }
}

/// `str::trim_matches` with a single-character pattern.
pub open spec fn trim_char_seq(s: Seq<char>, c: char) -> Seq<char> {
    trim_char_end_seq(trim_char_start_seq(s, c), c)
}

/// ASCII lower-casing of one character.
pub open spec fn lower_char(c: char) -> char {
    if 'A' <= c && c <= 'Z' {
        ((c as u32) + 32) as char
    } else {
        c
    }
}

/// ASCII lower-casing of a character sequence.
pub open spec fn lower_seq(s: Seq<char>) -> Seq<char> {
    s.map_values(|c: char| lower_char(c))
}

/// True iff the two string slices hold the same characters.
pub fn str_eq(a: &str, b: &str) -> (r: bool)
    ensures
        r == (a@ == b@),
{
    let la = a.unicode_len();
    let lb = b.unicode_len();
    if la != lb {
        assert(a@ != b@) by {
            assert(a@.len() != b@.len());
        }
        return false;
    }
    let mut i: usize = 0;
    while i < la
        invariant
            la == a@.len(),
            la == b@.len(),
            0 <= i <= la,
            forall|j: int| 0 <= j < i ==> a@[j] == b@[j],
        decreases la - i,
    {
        if a.get_char(i) != b.get_char(i) {
            assert(a@ != b@);
            return false;
        }
        i = i + 1;
    }
    assert(a@ =~= b@);
    true
}

/// Whether `p` occurs in `s` at position `i`.
pub(crate) fn match_at(s: &str, p: &str, i: usize) -> (r: bool)
    requires
        i + p@.len() <= s@.len(),
    ensures
        r == occurs_at(s@, p@, i as int),
{
    let sl = s.unicode_len();
    let pl = p.unicode_len();
    let mut j: usize = 0;
    while j < pl
        invariant
            sl == s@.len(),
            pl == p@.len(),
            i + pl <= sl,
            0 <= j <= pl,
            forall|k: int| 0 <= k < j ==> s@[i + k] == p@[k],
        decreases pl - j,
    {
        if s.get_char(i + j) != p.get_char(j) {
            assert(!occurs_at(s@, p@, i as int)) by {
                assert(s@.subrange(i as int, i + p@.len() as int)[j as int] != p@[j as int]);
            }
            return false;
        }
        j = j + 1;
    }
    assert(s@.subrange(i as int, i + p@.len() as int) =~= p@);
    true
}

/// Whether `s` contains `p` as a substring.
pub fn contains_str(s: &str, p: &str) -> (r: bool)
    ensures
        r == contains_seq(s@, p@),
{
    let sl = s.unicode_len();
    let pl = p.unicode_len();
    if pl > sl {
        assert(!contains_seq(s@, p@));
        return false;
    }
    if pl == 0 {
        assert(occurs_at(s@, p@, 0)) by {
            assert(s@.subrange(0, 0) =~= p@);
        }
        return true;
    }
    let mut i: usize = 0;
    while i <= sl - pl
        invariant
            sl == s@.len(),
            pl == p@.len(),
            0 < pl <= sl,
            0 <= i <= sl - pl + 1,
            forall|k: int| 0 <= k < i ==> !occurs_at(s@, p@, k),
        decreases sl - i,
    {
        if match_at(s, p, i) {
            return true;
        }
        i = i + 1;
    }
    assert(forall|k: int| occurs_at(s@, p@, k) ==> 0 <= k <= sl - pl);
    false
}

/// Whether `s` starts with `p`.
pub fn starts_with_str(s: &str, p: &str) -> (r: bool)
    ensures
        r == p@.is_prefix_of(s@),
{
    let sl = s.unicode_len();
    let pl = p.unicode_len();
    if pl > sl {
        return false;
    }
    let r = match_at(s, p, 0);
    assert(occurs_at(s@, p@, 0) == p@.is_prefix_of(s@));
    r
}

/// Whether `s` ends with `p`.
pub fn ends_with_str(s: &str, p: &str) -> (r: bool)
    ensures
        r == p@.is_suffix_of(s@),
{
    let sl = s.unicode_len();
    let pl = p.unicode_len();
    if pl > sl {
        return false;
    }
    let r = match_at(s, p, sl - pl);
    assert(occurs_at(s@, p@, sl - pl) == p@.is_suffix_of(s@)) by {
        assert(s@.subrange(sl - pl, sl - pl + p@.len() as int) =~= s@.skip(s@.len() - p@.len() as int));
    }
    r
}

/// Left-to-right, non-overlapping replacement of `from` by `to`,
/// as `str::replace` does it.
pub fn replace_all(s: &str, from: &str, to: &str) -> (r: String)
    requires
        from@.len() > 0,
    ensures
        r@ == replace_seq(s@, from@, to@),
{
    let sl = s.unicode_len();
    let fl = from.unicode_len();
    let mut res = String::new();
    proof {
        assert(s@.subrange(0, sl as int) =~= s@);
        assert(res@ + replace_seq(s@, from@, to@) =~= replace_seq(s@, from@, to@));
    }
    let mut i: usize = 0;
    while i < sl
        invariant
            sl == s@.len(),
            fl == from@.len(),
            fl > 0,
            0 <= i <= sl,
            res@ + replace_seq(s@.subrange(i as int, sl as int), from@, to@) == replace_seq(
                s@,
                from@,
                to@,
            ),
        decreases sl - i,
    {
        let ghost rem = s@.subrange(i as int, sl as int);
        if fl <= sl - i && match_at(s, from, i) {
            proof {
                assert(rem.subrange(0, fl as int) =~= s@.subrange(i as int, i + fl as int));
                assert(rem.subrange(fl as int, rem.len() as int) =~= s@.subrange(
                    i + fl as int,
                    sl as int,
                ));
            }
            res.append(to);
            i = i + fl;
        } else {
            proof {
                if fl <= rem.len() {
                    assert(rem.subrange(0, fl as int) =~= s@.subrange(i as int, i + fl as int));
                }
                assert(rem.subrange(1, rem.len() as int) =~= s@.subrange(i + 1, sl as int));
                assert(s@.subrange(i as int, i + 1) =~= seq![rem[0]]);
            }
            res.append(s.substring_char(i, i + 1));
            i = i + 1;
        }
    }
    proof {
        assert(s@.subrange(sl as int, sl as int) =~= Seq::<char>::empty());
        assert(replace_seq(Seq::<char>::empty(), from@, to@) =~= Seq::<char>::empty());
        assert(res@ =~= res@ + Seq::<char>::empty());
    }
    res
}

/// Splits `s` at every occurrence of `sep`, as `str::split` with a
/// character pattern does.
pub fn split_char(s: &str, sep: char) -> (r: Vec<String>)
    ensures
        r@.map_values(|x: String| x@) == split_seq(s@, sep),
{
    let sl = s.unicode_len();
    let mut done: Vec<String> = Vec::new();
    let mut cur = String::new();
    proof {
        assert(s@.subrange(0, sl as int) =~= s@);
        lemma_split_seq_len(s@, sep);
        let full = split_seq(s@, sep);
        assert(done@.map_values(|x: String| x@) =~= Seq::<Seq<char>>::empty());
        assert(cur@ + full[0] =~= full[0]);
        assert(Seq::<Seq<char>>::empty() + seq![full[0]] + full.subrange(1, full.len() as int)
            =~= full);
    }
    let mut i: usize = 0;
    while i < sl
        invariant
            sl == s@.len(),
            0 <= i <= sl,
            split_seq(s@, sep) == done@.map_values(|x: String| x@) + seq![cur@ + split_seq(
                s@.subrange(i as int, sl as int),
                sep,
            )[0]] + split_seq(s@.subrange(i as int, sl as int), sep).subrange(
                1,
                split_seq(s@.subrange(i as int, sl as int), sep).len() as int,
            ),
        decreases sl - i,
    {
        let ghost rem = s@.subrange(i as int, sl as int);
        let ghost remnext = s@.subrange(i + 1, sl as int);
        proof {
            assert(rem.subrange(1, rem.len() as int) =~= remnext);
            lemma_split_seq_len(remnext, sep);
        }
        let c = s.get_char(i);
        if c == sep {
            let finished = cur;
            cur = String::new();
            done.push(finished);
            proof {
                assert(split_seq(rem, sep) == seq![Seq::<char>::empty()] + split_seq(remnext, sep));
                assert(done@.map_values(|x: String| x@) =~= done@.subrange(
                    0,
                    done@.len() - 1,
                ).map_values(|x: String| x@) + seq![finished@]);
                assert(finished@ =~= finished@ + split_seq(rem, sep)[0]);
                assert(split_seq(rem, sep).subrange(1, split_seq(rem, sep).len() as int) =~= seq![
                    Seq::<char>::empty() + split_seq(remnext, sep)[0]].add(split_seq(
                    remnext,
                    sep,
                ).subrange(1, split_seq(remnext, sep).len() as int)));
                assert(Seq::<char>::empty() + split_seq(remnext, sep)[0] =~= cur@ + split_seq(
                    remnext,
                    sep,
                )[0]);
                assert(split_seq(s@, sep) == done@.map_values(|x: String| x@) + seq![cur@
                    + split_seq(remnext, sep)[0]] + split_seq(remnext, sep).subrange(
                    1,
                    split_seq(remnext, sep).len() as int,
                ));
            }
        } else {
            proof {
                let rest = split_seq(remnext, sep);
                assert(split_seq(rem, sep) == seq![seq![rem[0]] + rest[0]] + rest.subrange(
                    1,
                    rest.len() as int,
                ));
                assert(cur@ + split_seq(rem, sep)[0] =~= (cur@ + seq![rem[0]]) + rest[0]);
                assert(s@.subrange(i as int, i + 1) =~= seq![rem[0]]);
            }
            cur.append(s.substring_char(i, i + 1));
        }
        i = i + 1;
    }
    proof {
        assert(s@.subrange(sl as int, sl as int) =~= Seq::<char>::empty());
        assert(split_seq(Seq::<char>::empty(), sep) == seq![Seq::<char>::empty()]);
        assert(cur@ =~= cur@ + Seq::<char>::empty());
    }
    done.push(cur);
    proof {
        let full = split_seq(s@, sep);
        lemma_split_seq_len(s@, sep);
        assert(done@.map_values(|x: String| x@) =~= done@.subrange(0, done@.len() - 1).map_values(
            |x: String| x@,
        ) + seq![done@[done@.len() - 1]@]);
        assert(done@.map_values(|x: String| x@) =~= full);
    }
    done
}

proof fn lemma_trim_start_at(s: Seq<char>, i: int)
    requires
        0 <= i <= s.len(),
        forall|j: int| 0 <= j < i ==> is_ws(s[j]),
        i == s.len() || !is_ws(s[i]),
    ensures
        trim_start_seq(s) == s.subrange(i, s.len() as int),
    decreases i,
{
    if i == 0 {
        assert(s.subrange(0, s.len() as int) =~= s);
    } else {
        let t = s.subrange(1, s.len() as int);
        lemma_trim_start_at(t, i - 1);
        assert(t.subrange(i - 1, t.len() as int) =~= s.subrange(i, s.len() as int));
    }
}

proof fn lemma_trim_end_at(s: Seq<char>, i: int)
    requires
        0 <= i <= s.len(),
        forall|j: int| i <= j < s.len() ==> is_ws(s[j]),
        i == 0 || !is_ws(s[i - 1]),
    ensures
        trim_end_seq(s) == s.subrange(0, i),
    decreases s.len() - i,
{
    if i == s.len() {
        assert(s.subrange(0, s.len() as int) =~= s);
    } else {
        let t = s.subrange(0, s.len() - 1);
        lemma_trim_end_at(t, i);
        assert(t.subrange(0, i) =~= s.subrange(0, i));
    }
}

/// `str::trim`, for the four ASCII whitespace characters.
pub fn trim_str<'a>(s: &'a str) -> (r: &'a str)
    ensures
        r@ == trim_seq(s@),
{
    let sl = s.unicode_len();
    let mut a: usize = 0;
    while a < sl && is_ws_exec(s.get_char(a))
        invariant
            sl == s@.len(),
            0 <= a <= sl,
            forall|j: int| 0 <= j < a ==> is_ws(s@[j]),
        decreases sl - a,
    {
        a = a + 1;
    }
    proof {
        lemma_trim_start_at(s@, a as int);
    }
    let ghost st = s@.subrange(a as int, sl as int);
    let mut b: usize = sl;
    while b > a && is_ws_exec(s.get_char(b - 1))
        invariant
            sl == s@.len(),
            a <= b <= sl,
            forall|j: int| b <= j < sl ==> is_ws(s@[j]),
        decreases b,
    {
        b = b - 1;
    }
    proof {
        assert(forall|j: int| b - a <= j < st.len() ==> is_ws(st[j]));
        lemma_trim_end_at(st, b - a);
        assert(st.subrange(0, b - a) =~= s@.subrange(a as int, b as int));
    }
    s.substring_char(a, b)
}

fn is_ws_exec(c: char) -> (r: bool)
    ensures
        r == is_ws(c),
{
    c == ' ' || c == '\t' || c == '\r' || c == '\n'
}

proof fn lemma_trim_char_start_at(s: Seq<char>, c: char, i: int)
    requires
        0 <= i <= s.len(),
        forall|j: int| 0 <= j < i ==> s[j] == c,
        i == s.len() || s[i] != c,
    ensures
        trim_char_start_seq(s, c) == s.subrange(i, s.len() as int),
    decreases i,
{
    if i == 0 {
        assert(s.subrange(0, s.len() as int) =~= s);
    } else {
        let t = s.subrange(1, s.len() as int);
        lemma_trim_char_start_at(t, c, i - 1);
        assert(t.subrange(i - 1, t.len() as int) =~= s.subrange(i, s.len() as int));
    }
}

proof fn lemma_trim_char_end_at(s: Seq<char>, c: char, i: int)
    requires
        0 <= i <= s.len(),
        forall|j: int| i <= j < s.len() ==> s[j] == c,
        i == 0 || s[i - 1] != c,
    ensures
        trim_char_end_seq(s, c) == s.subrange(0, i),
    decreases s.len() - i,
{
    if i == s.len() {
        assert(s.subrange(0, s.len() as int) =~= s);
    } else {
        let t = s.subrange(0, s.len() - 1);
        lemma_trim_char_end_at(t, c, i);
        assert(t.subrange(0, i) =~= s.subrange(0, i));
    }
}

/// `str::trim_matches` with a single-character pattern.
pub fn trim_char_str<'a>(s: &'a str, c: char) -> (r: &'a str)
    ensures
        r@ == trim_char_seq(s@, c),
{
    let sl = s.unicode_len();
    let mut a: usize = 0;
    while a < sl && s.get_char(a) == c
        invariant
            sl == s@.len(),
            0 <= a <= sl,
            forall|j: int| 0 <= j < a ==> s@[j] == c,
        decreases sl - a,
    {
        a = a + 1;
    }
    proof {
        lemma_trim_char_start_at(s@, c, a as int);
    }
    let ghost st = s@.subrange(a as int, sl as int);
    let mut b: usize = sl;
    while b > a && s.get_char(b - 1) == c
        invariant
            sl == s@.len(),
            a <= b <= sl,
            forall|j: int| b <= j < sl ==> s@[j] == c,
        decreases b,
    {
        b = b - 1;
    }
    proof {
        assert(forall|j: int| b - a <= j < st.len() ==> st[j] == c);
        lemma_trim_char_end_at(st, c, b - a);
        assert(st.subrange(0, b - a) =~= s@.subrange(a as int, b as int));
    }
    s.substring_char(a, b)
}

/// ASCII lower-casing of one character.
pub fn lower_char_exec(c: char) -> (r: char)
    ensures
        r == lower_char(c),
{
    if c == 'A' {
        'a'
    } else if c == 'B' {
        'b'
    } else if c == 'C' {
        'c'
    } else if c == 'D' {
        'd'
    } else if c == 'E' {
        'e'
    } else if c == 'F' {
        'f'
    } else if c == 'G' {
        'g'
    } else if c == 'H' {
        'h'
    } else if c == 'I' {
        'i'
    } else if c == 'J' {
        'j'
    } else if c == 'K' {
        'k'
    } else if c == 'L' {
        'l'
    } else if c == 'M' {
        'm'
    } else if c == 'N' {
        'n'
    } else if c == 'O' {
        'o'
    } else if c == 'P' {
        'p'
    } else if c == 'Q' {
        'q'
    } else if c == 'R' {
        'r'
    } else if c == 'S' {
        's'
    } else if c == 'T' {
        't'
    } else if c == 'U' {
        'u'
    } else if c == 'V' {
        'v'
    } else if c == 'W' {
        'w'
    } else if c == 'X' {
        'x'
    } else if c == 'Y' {
        'y'
    } else if c == 'Z' {
        'z'
    } else {
        c
    }
}

/// ASCII lower-casing of a whole string.
pub fn to_lowercase_str(s: &str) -> (r: String)
    ensures
        r@ == lower_seq(s@),
{
    let sl = s.unicode_len();
    let mut out: Vec<char> = Vec::new();
    let mut i: usize = 0;
    while i < sl
        invariant
            sl == s@.len(),
            0 <= i <= sl,
            out@ == s@.subrange(0, i as int).map_values(|c: char| lower_char(c)),
        decreases sl - i,
    {
        out.push(lower_char_exec(s.get_char(i)));
        proof {
            assert(s@.subrange(0, i + 1).map_values(|c: char| lower_char(c)) =~= s@.subrange(
                0,
                i as int,
            ).map_values(|c: char| lower_char(c)) + seq![lower_char(s@[i as int])]);
        }
        i = i + 1;
    }
    proof {
        assert(s@.subrange(0, sl as int) =~= s@);
    }
    chars_to_string(&out)
}

/// Builds a `String` from a sequence of characters.
pub fn chars_to_string(v: &Vec<char>) -> (r: String)
    ensures
        r@ == v@,
{
    let mut r = String::new();
    let mut i: usize = 0;
    while i < v.len()
        invariant
            0 <= i <= v@.len(),
            r@ == v@.subrange(0, i as int),
        decreases v@.len() - i,
    {
        r = push_char(r, v[i]);
        proof {
            assert(v@.subrange(0, i + 1) =~= v@.subrange(0, i as int) + seq![v@[i as int]]);
        }
        i = i + 1;
    }
    proof {
        assert(v@.subrange(0, v@.len() as int) =~= v@);
    }
    r
}

/// Appends one character to a `String`.
pub fn push_char(s: String, c: char) -> (r: String)
    ensures
        r@ == s@ + seq![c],
{
    push_one(s, c)
}

/// The maximal whitespace-separated words of a string, in order.
pub open spec fn word_runs(s: Seq<char>) -> Seq<Seq<char>>
    decreases s.len(),
{
    if s.len() == 0 {
        Seq::<Seq<char>>::empty()
    } else {
        let rest = word_runs(s.subrange(1, s.len() as int));
        if is_ws(s[0]) {
            rest
        } else if s.len() > 1 && !is_ws(s[1]) {
            seq![seq![s[0]] + rest[0]] + rest.subrange(1, rest.len() as int)
        } else {
            seq![seq![s[0]]] + rest
        }
    }
}

/// Splits a string into its whitespace-separated words, as
/// `str::split_whitespace` does for ASCII whitespace.
pub fn split_words(s: &str) -> (r: Vec<String>)
    ensures
        r@.map_values(|x: String| x@) == word_runs(s@),
{
    let sl = s.unicode_len();
    let mut done: Vec<String> = Vec::new();
    let mut cur = String::new();
    proof {
        assert(s@.subrange(0, sl as int) =~= s@);
        assert(done@.map_values(|x: String| x@) =~= Seq::<Seq<char>>::empty());
    }
    let mut i: usize = 0;
    while i < sl
        invariant
            0 <= i <= sl,
            sl == s@.len(),
            cur@.len() == 0 ==> word_runs(s@) == done@.map_values(|x: String| x@) + word_runs(
                s@.subrange(i as int, sl as int),
            ),
            cur@.len() > 0 ==> i < sl && !is_ws(s@[i as int]) && word_runs(s@)
                == done@.map_values(|x: String| x@) + seq![cur@ + word_runs(
                s@.subrange(i as int, sl as int),
            )[0]] + word_runs(s@.subrange(i as int, sl as int)).subrange(
                1,
                word_runs(s@.subrange(i as int, sl as int)).len() as int,
            ),
        decreases sl - i,
    {
        let ghost rem = s@.subrange(i as int, sl as int);
        let ghost remnext = s@.subrange(i + 1, sl as int);
        proof {
            assert(rem[0] == s@[i as int]);
            assert(rem.subrange(1, rem.len() as int) =~= remnext);
            if i + 1 < sl {
                assert(remnext[0] == s@[i + 1]);
            }
        }
        let c = s.get_char(i);
        let next_word = if i + 1 < sl {
            !is_ws_exec(s.get_char(i + 1))
        } else {
            false
        };
        if !is_ws_exec(c) {
            let ghost prevcur = cur@;
            cur.append(s.substring_char(i, i + 1));
            proof {
                assert(s@.subrange(i as int, i + 1) =~= seq![rem[0]]);
                assert(cur@ =~= prevcur + seq![rem[0]]);
            }
            if !next_word {
                let finished = cur;
                cur = String::new();
                let ghost prevdone = done@;
                done.push(finished);
                proof {
                    assert(word_runs(rem) == seq![seq![rem[0]]] + word_runs(remnext));
                    assert(done@.map_values(|x: String| x@) =~= prevdone.map_values(
                        |x: String| x@,
                    ).push(prevcur + seq![rem[0]]));
                    if prevcur.len() == 0 {
                        assert(prevcur + seq![rem[0]] =~= seq![rem[0]]);
                        assert(done@.map_values(|x: String| x@) + word_runs(remnext)
                            =~= prevdone.map_values(|x: String| x@) + word_runs(rem));
                    } else {
                        assert(word_runs(rem)[0] == seq![rem[0]]);
                        assert(word_runs(rem).subrange(1, word_runs(rem).len() as int)
                            =~= word_runs(remnext));
                        assert(done@.map_values(|x: String| x@) + word_runs(remnext)
                            =~= prevdone.map_values(|x: String| x@) + seq![prevcur + word_runs(
                            rem,
                        )[0]] + word_runs(rem).subrange(1, word_runs(rem).len() as int));
                    }
                }
            } else {
                proof {
                    let rest = word_runs(remnext);
                    assert(remnext.len() > 0 && !is_ws(remnext[0]));
                    assert(rest.len() >= 1);
                    assert(word_runs(rem) == seq![seq![rem[0]] + rest[0]] + rest.subrange(
                        1,
                        rest.len() as int,
                    ));
                    assert(word_runs(rem)[0] == seq![rem[0]] + rest[0]);
                    assert(word_runs(rem).subrange(1, word_runs(rem).len() as int)
                        =~= rest.subrange(1, rest.len() as int));
                    if prevcur.len() == 0 {
                        assert(cur@ + rest[0] =~= seq![rem[0]] + rest[0]);
                        assert(cur@ + rest[0] =~= word_runs(rem)[0]);
                    } else {
                        assert(cur@ + rest[0] =~= prevcur + (seq![rem[0]] + rest[0]));
                        assert(cur@ + rest[0] =~= prevcur + word_runs(rem)[0]);
                    }
                }
            }
        } else {
            proof {
                assert(word_runs(rem) == word_runs(remnext));
            }
        }
        i = i + 1;
    }
    proof {
        assert(s@.subrange(sl as int, sl as int) =~= Seq::<char>::empty());
        assert(word_runs(Seq::<char>::empty()) =~= Seq::<Seq<char>>::empty());
        assert(done@.map_values(|x: String| x@) =~= done@.map_values(|x: String| x@) + Seq::<
            Seq<char>,
        >::empty());
    }
    done
}

/// Relies on `String::push`: appends exactly the given character.
#[verifier::external_body]
fn push_one(s: String, c: char) -> (r: String)
    ensures
        r@ == s@ + seq![c],
{
    let mut s = s;
    s.push(c);
    s
}

} // verus!
