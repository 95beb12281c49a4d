//! Mod-loader support: version-list assembly per loader kind, the numeric
//! version comparison used to order them, loader metadata and installer
//! URLs, and installer package-layout detection.
use vstd::prelude::*;
use vstd::string::StrSliceExecFns;
use vstd::string::StringExecFns;
use core::cmp::Ordering;
use vstd::multiset::Multiset;
use crate::strutil::{str_eq, contains_str, starts_with_str, to_lowercase_str, lower_seq};

verus! {

/// One selectable loader version, as shown to the user.
#[derive(Debug, Clone, PartialEq)]
pub struct LoaderVersion {
    pub id: String,
    pub loader: String,
    pub version: String,
    pub stable: bool,
}

/// The four supported mod loaders.
#[derive(Debug, Clone, Copy, PartialEq, Eq, Structural)]
pub enum LoaderKind {
    Fabric,
    Quilt,
    NeoForge,
    Forge,
}

pub open spec fn is_digit(c: char) -> bool {
    '0' <= c && c <= '9'
}

/// The value of a digit string.
pub open spec fn digits_val(s: Seq<char>) -> int
    decreases s.len(),
{
    if s.len() == 0 {
        0
    } else {
        digits_val(s.subrange(0, s.len() - 1)) * 10 + (s[s.len() - 1] as u32 - '0' as u32)
    }
}

/// The maximal digit runs of a string, in order.
pub open spec fn digit_runs(s: Seq<char>) -> Seq<Seq<char>>
    decreases s.len(),
{
    if s.len() == 0 {
        Seq::<Seq<char>>::empty()
    } else {
        let rest = digit_runs(s.subrange(1, s.len() as int));
        if !is_digit(s[0]) {
            rest
        } else if s.len() > 1 && is_digit(s[1]) {
            seq![seq![s[0]] + rest[0]] + rest.subrange(1, rest.len() as int)
        } else {
            seq![seq![s[0]]] + rest
        }
    }
}

proof fn lemma_digit_runs_head(s: Seq<char>)
    requires
        s.len() > 0,
        is_digit(s[0]),
    ensures
        digit_runs(s).len() >= 1,
{
}

/// The numeric components of a version string: each digit run's value,
/// keeping only those that fit a 32-bit number.
pub open spec fn run_values(runs: Seq<Seq<char>>) -> Seq<int>
    decreases runs.len(),
{
    if runs.len() == 0 {
        Seq::<int>::empty()
    } else {
        (if digits_val(runs[0]) < 0x1_0000_0000 {
            seq![digits_val(runs[0])]
        } else {
            Seq::<int>::empty()
        }) + run_values(runs.subrange(1, runs.len() as int))
    }
}

pub open spec fn version_nums(s: Seq<char>) -> Seq<int> {
    run_values(digit_runs(s))
}

/// Lexicographic comparison of numeric components; a common prefix is
/// broken by length.
pub open spec fn lex_cmp(a: Seq<int>, b: Seq<int>) -> Ordering
    decreases a.len(),
{
    if a.len() > 0 && b.len() > 0 {
        if a[0] < b[0] {
            Ordering::Less
        } else if a[0] > b[0] {
            Ordering::Greater
        } else {
            lex_cmp(a.subrange(1, a.len() as int), b.subrange(1, b.len() as int))
        }
    } else if a.len() < b.len() {
        Ordering::Less
    } else if a.len() > b.len() {
        Ordering::Greater
    } else {
        Ordering::Equal
    }
}

/// Swapping the arguments flips the comparison.
pub proof fn lemma_lex_cmp_flip(a: Seq<int>, b: Seq<int>)
    ensures
        (lex_cmp(a, b) == Ordering::Less) <==> (lex_cmp(b, a) == Ordering::Greater),
        (lex_cmp(a, b) == Ordering::Equal) <==> (lex_cmp(b, a) == Ordering::Equal),
    decreases a.len(),
{
    if a.len() > 0 && b.len() > 0 {
        if a[0] == b[0] {
            lemma_lex_cmp_flip(a.subrange(1, a.len() as int), b.subrange(1, b.len() as int));
        }
    }
}

/// The comparison is transitive in its non-decreasing reading.
pub proof fn lemma_lex_cmp_trans(a: Seq<int>, b: Seq<int>, c: Seq<int>)
    requires
        lex_cmp(a, b) != Ordering::Less,
        lex_cmp(b, c) != Ordering::Less,
    ensures
        lex_cmp(a, c) != Ordering::Less,
    decreases a.len() + b.len() + c.len(),
{
    if a.len() > 0 && b.len() > 0 && c.len() > 0 {
        if a[0] == b[0] && b[0] == c[0] {
            lemma_lex_cmp_trans(
                a.subrange(1, a.len() as int),
                b.subrange(1, b.len() as int),
                c.subrange(1, c.len() as int),
            );
        }
    } else if b.len() == 0 {
        assert(c.len() == 0);
    }
}

/// Compares two version strings by their numeric components, as the
/// version lists are ordered: componentwise, then by component count.
pub fn compare_versions(v1: &str, v2: &str) -> (r: Ordering)
    ensures
        r == lex_cmp(version_nums(v1@), version_nums(v2@)),
{
    let a = version_components(v1);
    let b = version_components(v2);
    let ghost am = version_nums(v1@);
    let ghost bm = version_nums(v2@);
    let mut i: usize = 0;
    proof {
        assert(am.subrange(0, am.len() as int) =~= am);
        assert(bm.subrange(0, bm.len() as int) =~= bm);
    }
    while i < a.len() && i < b.len()
        invariant
            0 <= i <= a@.len(),
            0 <= i <= b@.len(),
            am == version_nums(v1@),
            bm == version_nums(v2@),
            a@.map_values(|x: u32| x as int) == am,
            b@.map_values(|x: u32| x as int) == bm,
            lex_cmp(am, bm) == lex_cmp(
                am.subrange(i as int, am.len() as int),
                bm.subrange(i as int, bm.len() as int),
            ),
        decreases a@.len() - i,
    {
        let ghost ar = am.subrange(i as int, am.len() as int);
        let ghost br = bm.subrange(i as int, bm.len() as int);
        proof {
            assert(ar[0] == am[i as int]);
            assert(br[0] == bm[i as int]);
            assert(am[i as int] == a@[i as int] as int);
            assert(bm[i as int] == b@[i as int] as int);
            assert(ar.len() > 0 && br.len() > 0);
            assert(ar.subrange(1, ar.len() as int) =~= am.subrange(i + 1, am.len() as int));
            assert(br.subrange(1, br.len() as int) =~= bm.subrange(i + 1, bm.len() as int));
        }
        if a[i] < b[i] {
            proof {
                assert(lex_cmp(ar, br) == Ordering::Less);
            }
            return Ordering::Less;
        }
        if a[i] > b[i] {
            proof {
                assert(lex_cmp(ar, br) == Ordering::Greater);
            }
            return Ordering::Greater;
        }
        i = i + 1;
    }
    proof {
        let ar = am.subrange(i as int, am.len() as int);
        let br = bm.subrange(i as int, bm.len() as int);
        assert(ar.len() == am.len() - i);
        assert(br.len() == bm.len() - i);
    }
    if a.len() < b.len() {
        Ordering::Less
    } else if a.len() > b.len() {
        Ordering::Greater
    } else {
        Ordering::Equal
    }
}

/// The digit value of one run, capped: a run whose value does not fit a
/// 32-bit number yields nothing.
fn parse_run(run: &str) -> (r: Option<u32>)
    requires
        run@.len() > 0,
        forall|j: int| 0 <= j < run@.len() ==> is_digit(#[trigger] run@[j]),
    ensures
        match r {
            Some(v) => v as int == digits_val(run@) && digits_val(run@) < 0x1_0000_0000,
            None => digits_val(run@) >= 0x1_0000_0000,
        },
{
    let rl = run.unicode_len();
    let mut acc: u64 = 0;
    let mut over: bool = false;
    let mut i: usize = 0;
    proof {
        assert(run@.subrange(0, 0) =~= Seq::<char>::empty());
    }
    while i < rl
        invariant
            0 <= i <= rl,
            rl == run@.len(),
            forall|j: int| 0 <= j < run@.len() ==> is_digit(#[trigger] run@[j]),
            !over ==> acc as int == digits_val(run@.subrange(0, i as int)) && acc
                < 0x1_0000_0000,
            over ==> digits_val(run@.subrange(0, i as int)) >= 0x1_0000_0000,
        decreases rl - i,
    {
        let c = run.get_char(i);
        let d: u64 = digit_value(c);
        proof {
            assert(run@.subrange(0, i + 1).subrange(0, i as int) =~= run@.subrange(0, i as int));
            assert(digits_val(run@.subrange(0, i + 1)) == digits_val(run@.subrange(0, i as int))
                * 10 + (run@[i as int] as u32 - '0' as u32));
            lemma_digits_val_nonneg(run@.subrange(0, i as int));
        }
        if over {
            proof {
                assert(digits_val(run@.subrange(0, i as int)) * 10 + (run@[i as int] as u32
                    - '0' as u32) >= 0x1_0000_0000) by (nonlinear_arith)
                    requires
                        digits_val(run@.subrange(0, i as int)) >= 0x1_0000_0000,
                        run@[i as int] as u32 - '0' as u32 >= 0,
                ;
            }
        } else {
            acc = acc * 10 + d;
            if acc >= 0x1_0000_0000 {
                over = true;
            }
        }
        i = i + 1;
    }
    proof {
        assert(run@.subrange(0, rl as int) =~= run@);
    }
    if over {
        None
    } else {
        Some(acc as u32)
    }
}

proof fn lemma_digits_val_nonneg(s: Seq<char>)
    requires
        forall|j: int| 0 <= j < s.len() ==> is_digit(#[trigger] s[j]),
    ensures
        digits_val(s) >= 0,
    decreases s.len(),
{
    if s.len() > 0 {
        let pre = s.subrange(0, s.len() - 1);
        assert(forall|j: int| 0 <= j < pre.len() ==> is_digit(#[trigger] pre[j]));
        lemma_digits_val_nonneg(pre);
        assert(digits_val(pre) * 10 >= 0) by (nonlinear_arith)
            requires
                digits_val(pre) >= 0,
        ;
    }
}

/// The numeric value of a digit character.
fn digit_value(c: char) -> (r: u64)
    requires
        is_digit(c),
    ensures
        r == c as u32 - '0' as u32,
        r <= 9,
{
    (c as u32 - '0' as u32) as u64
}

/// Splits a string into its maximal digit runs.
fn split_digit_runs(s: &str) -> (r: Vec<String>)
    ensures
        r@.map_values(|x: String| x@) == digit_runs(s@),
{
    let sl = s.unicode_len();
    let mut done: Vec<String> = Vec::new();
    let mut cur = String::new();
    proof {
        assert(s@.subrange(0, sl as int) =~= s@);
        assert(done@.map_values(|x: String| x@) =~= Seq::<Seq<char>>::empty());
    }
    let mut i: usize = 0;
    while i < sl
        invariant
            0 <= i <= sl,
            sl == s@.len(),
            cur@.len() == 0 ==> digit_runs(s@) == done@.map_values(|x: String| x@) + digit_runs(
                s@.subrange(i as int, sl as int),
            ),
            cur@.len() > 0 ==> i < sl && is_digit(s@[i as int]) && digit_runs(s@)
                == done@.map_values(|x: String| x@) + seq![cur@ + digit_runs(
                s@.subrange(i as int, sl as int),
            )[0]] + digit_runs(s@.subrange(i as int, sl as int)).subrange(
                1,
                digit_runs(s@.subrange(i as int, sl as int)).len() as int,
            ),
        decreases sl - i,
    {
        let ghost rem = s@.subrange(i as int, sl as int);
        let ghost remnext = s@.subrange(i + 1, sl as int);
        proof {
            assert(rem[0] == s@[i as int]);
            assert(rem.subrange(1, rem.len() as int) =~= remnext);
            if i + 1 < sl {
                assert(remnext[0] == s@[i + 1]);
            }
        }
        let c = s.get_char(i);
        let next_digit = if i + 1 < sl {
            is_digit_exec(s.get_char(i + 1))
        } else {
            false
        };
        if is_digit_exec(c) {
            let ghost prevcur = cur@;
            cur.append(s.substring_char(i, i + 1));
            proof {
                assert(s@.subrange(i as int, i + 1) =~= seq![rem[0]]);
                assert(cur@ =~= prevcur + seq![rem[0]]);
            }
            if !next_digit {
                let finished = cur;
                cur = String::new();
                let ghost prevdone = done@;
                done.push(finished);
                proof {
                    assert(digit_runs(rem) == seq![seq![rem[0]]] + digit_runs(remnext));
                    assert(done@.map_values(|x: String| x@) =~= prevdone.map_values(
                        |x: String| x@,
                    ).push(prevcur + seq![rem[0]]));
                    if prevcur.len() == 0 {
                        assert(prevcur + seq![rem[0]] =~= seq![rem[0]]);
                        assert(done@.map_values(|x: String| x@) + digit_runs(remnext)
                            =~= prevdone.map_values(|x: String| x@) + digit_runs(rem));
                    } else {
                        assert(digit_runs(rem)[0] == seq![rem[0]]);
                        assert(digit_runs(rem).subrange(1, digit_runs(rem).len() as int)
                            =~= digit_runs(remnext));
                        assert(done@.map_values(|x: String| x@) + digit_runs(remnext)
                            =~= prevdone.map_values(|x: String| x@) + seq![prevcur + digit_runs(
                            rem,
                        )[0]] + digit_runs(rem).subrange(1, digit_runs(rem).len() as int));
                    }
                }
            } else {
                proof {
                    lemma_digit_runs_head(remnext);
                    let rest = digit_runs(remnext);
                    assert(digit_runs(rem) == seq![seq![rem[0]] + rest[0]] + rest.subrange(
                        1,
                        rest.len() as int,
                    ));
                    assert(digit_runs(rem)[0] == seq![rem[0]] + rest[0]);
                    assert(digit_runs(rem).subrange(1, digit_runs(rem).len() as int)
                        =~= rest.subrange(1, rest.len() as int));
                    if prevcur.len() == 0 {
                        assert(cur@ + rest[0] =~= seq![rem[0]] + rest[0]);
                        assert(cur@ + rest[0] =~= digit_runs(rem)[0]);
                    } else {
                        assert(cur@ + rest[0] =~= prevcur + (seq![rem[0]] + rest[0]));
                        assert(cur@ + rest[0] =~= prevcur + digit_runs(rem)[0]);
                    }
                }
            }
        } else {
            proof {
                assert(digit_runs(rem) == digit_runs(remnext));
            }
        }
        i = i + 1;
    }
    proof {
        assert(s@.subrange(sl as int, sl as int) =~= Seq::<char>::empty());
        assert(digit_runs(Seq::<char>::empty()) =~= Seq::<Seq<char>>::empty());
        assert(done@.map_values(|x: String| x@) =~= done@.map_values(|x: String| x@) + Seq::<
            Seq<char>,
        >::empty());
    }
    done
}

fn is_digit_exec(c: char) -> (r: bool)
    ensures
        r == is_digit(c),
{
    '0' <= c && c <= '9'
}

/// Every character of a maximal digit run is a digit, and a run is never
/// empty.
proof fn lemma_digit_runs_digits(s: Seq<char>)
    ensures
        forall|k: int|
            0 <= k < digit_runs(s).len() ==> (#[trigger] digit_runs(s)[k]).len() > 0 && forall|
                j: int,
            | 0 <= j < digit_runs(s)[k].len() ==> is_digit(#[trigger] digit_runs(s)[k][j]),
    decreases s.len(),
{
    if s.len() == 0 {
    } else {
        let rest = digit_runs(s.subrange(1, s.len() as int));
        lemma_digit_runs_digits(s.subrange(1, s.len() as int));
        if !is_digit(s[0]) {
        } else if s.len() > 1 && is_digit(s[1]) {
            lemma_digit_runs_head(s.subrange(1, s.len() as int));
            assert forall|k: int| 0 <= k < digit_runs(s).len() implies (#[trigger] digit_runs(
                s,
            )[k]).len() > 0 && forall|j: int|
                0 <= j < digit_runs(s)[k].len() ==> is_digit(#[trigger] digit_runs(s)[k][j]) by {
                if k == 0 {
                    assert(digit_runs(s)[0] == seq![s[0]] + rest[0]);
                } else {
                    assert(digit_runs(s)[k] == rest[k]);
                }
            }
        } else {
            assert forall|k: int| 0 <= k < digit_runs(s).len() implies (#[trigger] digit_runs(
                s,
            )[k]).len() > 0 && forall|j: int|
                0 <= j < digit_runs(s)[k].len() ==> is_digit(#[trigger] digit_runs(s)[k][j]) by {
                if k == 0 {
                    assert(digit_runs(s)[0] == seq![s[0]]);
                } else {
                    assert(digit_runs(s)[k] == rest[k - 1]);
                }
            }
        }
    }
}

/// The numeric components of a version string.
fn version_components(s: &str) -> (r: Vec<u32>)
    ensures
        r@.map_values(|x: u32| x as int) == version_nums(s@),
{
    let runs = split_digit_runs(s);
    let ghost runsm = runs@.map_values(|x: String| x@);
    proof {
        lemma_digit_runs_digits(s@);
        assert(runsm.subrange(0, runsm.len() as int) =~= runsm);
    }
    let mut out: Vec<u32> = Vec::new();
    proof {
        assert(out@.map_values(|x: u32| x as int) =~= Seq::<int>::empty());
    }
    let mut i: usize = 0;
    while i < runs.len()
        invariant
            0 <= i <= runs@.len(),
            runsm == runs@.map_values(|x: String| x@),
            runsm == digit_runs(s@),
            forall|k: int|
                0 <= k < runsm.len() ==> (#[trigger] runsm[k]).len() > 0 && forall|j: int|
                    0 <= j < runsm[k].len() ==> is_digit(#[trigger] runsm[k][j]),
            run_values(runsm) == out@.map_values(|x: u32| x as int) + run_values(
                runsm.subrange(i as int, runsm.len() as int),
            ),
        decreases runs@.len() - i,
    {
        let ghost rem = runsm.subrange(i as int, runsm.len() as int);
        proof {
            assert(rem[0] == runsm[i as int]);
            assert(rem.subrange(1, rem.len() as int) =~= runsm.subrange(
                i + 1,
                runsm.len() as int,
            ));
        }
        match parse_run(runs[i].as_str()) {
            Some(v) => {
                let ghost prevout = out@;
                out.push(v);
                proof {
                    assert(out@.map_values(|x: u32| x as int) =~= prevout.map_values(
                        |x: u32| x as int,
                    ).push(v as int));
                    assert(run_values(rem) == seq![digits_val(rem[0])] + run_values(
                        rem.subrange(1, rem.len() as int),
                    ));
                    assert(run_values(runsm) =~= out@.map_values(|x: u32| x as int) + run_values(
                        runsm.subrange(i + 1, runsm.len() as int),
                    ));
                }
            },
            None => {
                proof {
                    assert(run_values(rem) =~= Seq::<int>::empty() + run_values(
                        rem.subrange(1, rem.len() as int),
                    ));
                    assert(run_values(rem) =~= run_values(
                        runsm.subrange(i + 1, runsm.len() as int),
                    ));
                }
            },
        }
        i = i + 1;
    }
    proof {
        assert(runsm.subrange(runsm.len() as int, runsm.len() as int) =~= Seq::<Seq<char>>::empty());
        assert(run_values(runsm) =~= out@.map_values(|x: u32| x as int));
    }
    out
}

/// The (id, loader, version, stable) model of a loader version entry.
pub open spec fn lv_model(l: LoaderVersion) -> (Seq<char>, Seq<char>, Seq<char>, bool) {
    (l.id@, l.loader@, l.version@, l.stable)
}

/// The display order of the version lists: stable entries first, then by
/// numeric version, newest first.
pub open spec fn lv_before(x: (Seq<char>, Seq<char>, Seq<char>, bool), y: (Seq<char>, Seq<char>, Seq<char>, bool)) -> bool {
    if x.3 != y.3 {
        x.3
    } else {
        lex_cmp(version_nums(y.2), version_nums(x.2)) != Ordering::Greater
    }
}

/// The order is total: of any two entries, one may come first.
pub proof fn lemma_lv_before_total(
    x: (Seq<char>, Seq<char>, Seq<char>, bool),
    y: (Seq<char>, Seq<char>, Seq<char>, bool),
)
    ensures
        lv_before(x, y) || lv_before(y, x),
{
    if x.3 == y.3 {
        lemma_lex_cmp_flip(version_nums(y.2), version_nums(x.2));
    }
}

/// The order is transitive.
pub proof fn lemma_lv_before_trans(
    x: (Seq<char>, Seq<char>, Seq<char>, bool),
    y: (Seq<char>, Seq<char>, Seq<char>, bool),
    z: (Seq<char>, Seq<char>, Seq<char>, bool),
)
    requires
        lv_before(x, y),
        lv_before(y, z),
    ensures
        lv_before(x, z),
{
    if x.3 == y.3 && y.3 == z.3 {
        lemma_lex_cmp_flip(version_nums(y.2), version_nums(x.2));
        lemma_lex_cmp_flip(version_nums(z.2), version_nums(y.2));
        lemma_lex_cmp_trans(version_nums(x.2), version_nums(y.2), version_nums(z.2));
        lemma_lex_cmp_flip(version_nums(z.2), version_nums(x.2));
    }
}

/// Whether `a` may stand before `b` in the version lists.
fn lv_before_exec(a: &LoaderVersion, b: &LoaderVersion) -> (r: bool)
    ensures
        r == lv_before(lv_model(*a), lv_model(*b)),
{
    if a.stable != b.stable {
        a.stable
    } else {
        match compare_versions(b.version.as_str(), a.version.as_str()) {
            Ordering::Greater => false,
            _ => true,
        }
    }
}

/// Sorts loader versions for display: stable first, then newest first. The
/// result holds exactly the given entries.
pub fn sort_loader_versions(v: Vec<LoaderVersion>) -> (r: Vec<LoaderVersion>)
    ensures
        r@.map_values(|l: LoaderVersion| lv_model(l)).to_multiset() == v@.map_values(
            |l: LoaderVersion| lv_model(l),
        ).to_multiset(),
        forall|i: int, j: int|
            0 <= i < j < r@.len() ==> lv_before(
                lv_model(#[trigger] r@[i]),
                lv_model(#[trigger] r@[j]),
            ),
{
    broadcast use vstd::seq_lib::group_to_multiset_ensures;
    broadcast use vstd::multiset::group_multiset_axioms;

    let ghost vm = v@.map_values(|l: LoaderVersion| lv_model(l));
    let mut rest = v;
    let mut out: Vec<LoaderVersion> = Vec::new();
    while rest.len() > 0
        invariant
            out@.map_values(|l: LoaderVersion| lv_model(l)).to_multiset().add(
                rest@.map_values(|l: LoaderVersion| lv_model(l)).to_multiset(),
            ) == vm.to_multiset(),
            forall|i: int, j: int|
                0 <= i < j < out@.len() ==> lv_before(
                    lv_model(#[trigger] out@[i]),
                    lv_model(#[trigger] out@[j]),
                ),
            forall|i: int, j: int|
                0 <= i < out@.len() && 0 <= j < rest@.len() ==> lv_before(
                    lv_model(#[trigger] out@[i]),
                    lv_model(#[trigger] rest@[j]),
                ),
        decreases rest@.len(),
    {
        let mut m: usize = 0;
        let mut k: usize = 1;
        proof {
            lemma_lv_before_total(lv_model(rest@[0]), lv_model(rest@[0]));
        }
        while k < rest.len()
            invariant
                0 <= m < k <= rest@.len(),
                rest@.len() > 0,
                forall|j: int|
                    0 <= j < k ==> lv_before(
                        lv_model(rest@[m as int]),
                        lv_model(#[trigger] rest@[j]),
                    ),
            decreases rest@.len() - k,
        {
            if !lv_before_exec(&rest[m], &rest[k]) {
                proof {
                    lemma_lv_before_total(lv_model(rest@[m as int]), lv_model(rest@[k as int]));
                    assert forall|j: int| 0 <= j < k + 1 implies lv_before(
                        lv_model(rest@[k as int]),
                        lv_model(#[trigger] rest@[j]),
                    ) by {
                        if j < k {
                            lemma_lv_before_trans(
                                lv_model(rest@[k as int]),
                                lv_model(rest@[m as int]),
                                lv_model(rest@[j]),
                            );
                        } else {
                            lemma_lv_before_total(
                                lv_model(rest@[k as int]),
                                lv_model(rest@[k as int]),
                            );
                        }
                    }
                }
                m = k;
            } else {
                proof {
                    assert(lv_before(lv_model(rest@[m as int]), lv_model(rest@[k as int])));
                }
            }
            k = k + 1;
        }
        let ghost prevrest = rest@;
        let ghost prevout = out@;
        let x = rest.remove(m);
        proof {
            assert(x == prevrest[m as int]);
            assert(rest@ =~= prevrest.remove(m as int));
            assert(rest@.map_values(|l: LoaderVersion| lv_model(l)) =~= prevrest.map_values(
                |l: LoaderVersion| lv_model(l),
            ).remove(m as int));
        }
        out.push(x);
        proof {
            broadcast use vstd::seq_lib::group_to_multiset_ensures;
            broadcast use vstd::multiset::group_multiset_axioms;

            assert(out@.map_values(|l: LoaderVersion| lv_model(l)) =~= prevout.map_values(
                |l: LoaderVersion| lv_model(l),
            ).push(lv_model(x)));
            let pm = prevrest.map_values(|l: LoaderVersion| lv_model(l));
            assert(pm[m as int] == lv_model(x));
            assert(pm.contains(lv_model(x)));
            assert(pm.to_multiset().count(lv_model(x)) > 0);
            assert(rest@.map_values(|l: LoaderVersion| lv_model(l)).to_multiset() == pm.remove(
                m as int,
            ).to_multiset());
            assert(pm.remove(m as int).to_multiset() == pm.to_multiset().remove(lv_model(x)));
            assert(out@.map_values(|l: LoaderVersion| lv_model(l)).to_multiset()
                == prevout.map_values(|l: LoaderVersion| lv_model(l)).push(
                lv_model(x),
            ).to_multiset());
            assert(out@.map_values(|l: LoaderVersion| lv_model(l)).to_multiset().add(
                rest@.map_values(|l: LoaderVersion| lv_model(l)).to_multiset(),
            ) =~= vm.to_multiset());
            assert forall|i: int, j: int|
                0 <= i < out@.len() && 0 <= j < rest@.len() implies lv_before(
                lv_model(#[trigger] out@[i]),
                lv_model(#[trigger] rest@[j]),
            ) by {
                let jj = if j < m { j } else { j + 1 };
                assert(rest@[j] == prevrest[jj]);
                if i < out@.len() - 1 {
                    assert(lv_before(lv_model(out@[i]), lv_model(prevrest[jj])));
                } else {
                    assert(lv_before(lv_model(x), lv_model(prevrest[jj])));
                }
            }
            assert forall|i: int, j: int| 0 <= i < j < out@.len() implies lv_before(
                lv_model(#[trigger] out@[i]),
                lv_model(#[trigger] out@[j]),
            ) by {
                if j < out@.len() - 1 {
                    assert(lv_before(lv_model(prevout[i]), lv_model(prevout[j])));
                } else {
                    assert(lv_before(lv_model(prevout[i]), lv_model(prevrest[m as int])));
                }
            }
        }
    }
    proof {
        assert(rest@.map_values(|l: LoaderVersion| lv_model(l)).to_multiset() =~= Multiset::<
            (Seq<char>, Seq<char>, Seq<char>, bool),
        >::empty());
        assert(out@.map_values(|l: LoaderVersion| lv_model(l)).to_multiset() =~= vm.to_multiset());
    }
    out
}

/// The list entry made from one fabric loader version `(version, stable)`.
pub open spec fn fabric_entry(p: (String, bool)) -> (Seq<char>, Seq<char>, Seq<char>, bool) {
    ("fabric-"@ + p.0@, "fabric"@, p.0@, p.1)
}

/// A quilt version is stable unless it is a beta or alpha build.
pub open spec fn quilt_stable(v: Seq<char>) -> bool {
    !crate::strutil::contains_seq(v, "-beta"@) && !crate::strutil::contains_seq(v, "-alpha"@)
}

/// The list entry made from one quilt loader version.
pub open spec fn quilt_entry(v: Seq<char>) -> (Seq<char>, Seq<char>, Seq<char>, bool) {
    ("quilt-"@ + v, "quilt"@, v, quilt_stable(v))
}

/// Builds the fabric version list: each raw `(version, stable)` pair
/// becomes an entry `fabric-<version>`, and the list is ordered stable
/// first, newest first.
pub fn fabric_loader_versions(raw: &Vec<(String, bool)>) -> (r: Vec<LoaderVersion>)
    ensures
        r@.map_values(|l: LoaderVersion| lv_model(l)).to_multiset() == raw@.map_values(
            |p: (String, bool)| fabric_entry(p),
        ).to_multiset(),
        forall|i: int, j: int|
            0 <= i < j < r@.len() ==> lv_before(
                lv_model(#[trigger] r@[i]),
                lv_model(#[trigger] r@[j]),
            ),
{
    let mut mapped: Vec<LoaderVersion> = Vec::new();
    proof {
        assert(mapped@.map_values(|l: LoaderVersion| lv_model(l)) =~= raw@.subrange(
            0,
            0,
        ).map_values(|p: (String, bool)| fabric_entry(p)));
    }
    let mut i: usize = 0;
    while i < raw.len()
        invariant
            0 <= i <= raw@.len(),
            mapped@.map_values(|l: LoaderVersion| lv_model(l)) == raw@.subrange(
                0,
                i as int,
            ).map_values(|p: (String, bool)| fabric_entry(p)),
        decreases raw@.len() - i,
    {
        let version = raw[i].0.clone();
        let stable = raw[i].1;
        let mut id = String::from_str("fabric-");
        id.append(version.as_str());
        let ghost prev = mapped@;
        mapped.push(LoaderVersion { id, loader: String::from_str("fabric"), version, stable });
        proof {
            assert(mapped@.map_values(|l: LoaderVersion| lv_model(l)) =~= prev.map_values(
                |l: LoaderVersion| lv_model(l),
            ).push(fabric_entry(raw@[i as int])));
            assert(raw@.subrange(0, i + 1).map_values(|p: (String, bool)| fabric_entry(p))
                =~= raw@.subrange(0, i as int).map_values(|p: (String, bool)| fabric_entry(p)).push(
                fabric_entry(raw@[i as int]),
            ));
        }
        i = i + 1;
    }
    proof {
        assert(raw@.subrange(0, raw@.len() as int) =~= raw@);
    }
    sort_loader_versions(mapped)
}

/// Builds the quilt version list: each raw version becomes an entry
/// `quilt-<version>`, stable unless a beta or alpha build, ordered stable
/// first, newest first.
pub fn quilt_loader_versions(raw: &Vec<String>) -> (r: Vec<LoaderVersion>)
    ensures
        r@.map_values(|l: LoaderVersion| lv_model(l)).to_multiset() == raw@.map_values(
            |v: String| quilt_entry(v@),
        ).to_multiset(),
        forall|i: int, j: int|
            0 <= i < j < r@.len() ==> lv_before(
                lv_model(#[trigger] r@[i]),
                lv_model(#[trigger] r@[j]),
            ),
{
    let mut mapped: Vec<LoaderVersion> = Vec::new();
    proof {
        assert(mapped@.map_values(|l: LoaderVersion| lv_model(l)) =~= raw@.subrange(
            0,
            0,
        ).map_values(|v: String| quilt_entry(v@)));
    }
    let mut i: usize = 0;
    while i < raw.len()
        invariant
            0 <= i <= raw@.len(),
            mapped@.map_values(|l: LoaderVersion| lv_model(l)) == raw@.subrange(
                0,
                i as int,
            ).map_values(|v: String| quilt_entry(v@)),
        decreases raw@.len() - i,
    {
        let version = raw[i].clone();
        let stable = !contains_str(version.as_str(), "-beta") && !contains_str(
            version.as_str(),
            "-alpha",
        );
        let mut id = String::from_str("quilt-");
        id.append(version.as_str());
        let ghost prev = mapped@;
        mapped.push(LoaderVersion { id, loader: String::from_str("quilt"), version, stable });
        proof {
            assert(mapped@.map_values(|l: LoaderVersion| lv_model(l)) =~= prev.map_values(
                |l: LoaderVersion| lv_model(l),
            ).push(quilt_entry(raw@[i as int]@)));
            assert(raw@.subrange(0, i + 1).map_values(|v: String| quilt_entry(v@))
                =~= raw@.subrange(0, i as int).map_values(|v: String| quilt_entry(v@)).push(
                quilt_entry(raw@[i as int]@),
            ));
        }
        i = i + 1;
    }
    proof {
        assert(raw@.subrange(0, raw@.len() as int) =~= raw@);
    }
    sort_loader_versions(mapped)
}

/// The artifact prefix a game version selects in the neoforge version
/// list: the game version without its `1.` prefix.
pub open spec fn neoforge_prefix(mc: Seq<char>) -> Seq<char> {
    if "1."@.is_prefix_of(mc) {
        mc.subrange(2, mc.len() as int)
    } else {
        mc
    }
}

/// The list entry made from one neoforge version.
pub open spec fn neoforge_entry(v: Seq<char>) -> (Seq<char>, Seq<char>, Seq<char>, bool) {
    ("neoforge-"@ + v, "neoforge"@, v, !crate::strutil::contains_seq(v, "-beta"@))
}

/// The neoforge entries a version list yields: those starting with the
/// prefix, in catalog order.
pub open spec fn neoforge_entries(versions: Seq<Seq<char>>, prefix: Seq<char>) -> Seq<
    (Seq<char>, Seq<char>, Seq<char>, bool),
>
    decreases versions.len(),
{
    if versions.len() == 0 {
        Seq::<(Seq<char>, Seq<char>, Seq<char>, bool)>::empty()
    } else {
        (if prefix.is_prefix_of(versions[0]) {
            seq![neoforge_entry(versions[0])]
        } else {
            Seq::<(Seq<char>, Seq<char>, Seq<char>, bool)>::empty()
        }) + neoforge_entries(versions.subrange(1, versions.len() as int), prefix)
    }
}

proof fn lemma_neoforge_entries_snoc(versions: Seq<Seq<char>>, v: Seq<char>, prefix: Seq<char>)
    ensures
        neoforge_entries(versions.push(v), prefix) == neoforge_entries(versions, prefix) + (
        if prefix.is_prefix_of(v) {
            seq![neoforge_entry(v)]
        } else {
            Seq::<(Seq<char>, Seq<char>, Seq<char>, bool)>::empty()
        }),
    decreases versions.len(),
{
    let whole = versions.push(v);
    let vcontrib = if prefix.is_prefix_of(v) {
        seq![neoforge_entry(v)]
    } else {
        Seq::<(Seq<char>, Seq<char>, Seq<char>, bool)>::empty()
    };
    if versions.len() == 0 {
        assert(whole[0] == v);
        assert(whole.subrange(1, whole.len() as int) =~= Seq::<Seq<char>>::empty());
        assert(neoforge_entries(Seq::<Seq<char>>::empty(), prefix) == Seq::<
            (Seq<char>, Seq<char>, Seq<char>, bool),
        >::empty());
        assert(neoforge_entries(whole, prefix) == vcontrib + Seq::<
            (Seq<char>, Seq<char>, Seq<char>, bool),
        >::empty());
        assert(versions =~= Seq::<Seq<char>>::empty());
        assert(neoforge_entries(whole, prefix) =~= neoforge_entries(versions, prefix) + vcontrib);
    } else {
        let tail = versions.subrange(1, versions.len() as int);
        lemma_neoforge_entries_snoc(tail, v, prefix);
        assert(whole.subrange(1, whole.len() as int) =~= tail.push(v));
        assert(whole[0] == versions[0]);
        let hcontrib = if prefix.is_prefix_of(versions[0]) {
            seq![neoforge_entry(versions[0])]
        } else {
            Seq::<(Seq<char>, Seq<char>, Seq<char>, bool)>::empty()
        };
        assert(neoforge_entries(whole, prefix) == hcontrib + neoforge_entries(
            tail.push(v),
            prefix,
        ));
        assert(neoforge_entries(versions, prefix) == hcontrib + neoforge_entries(tail, prefix));
        assert(hcontrib + (neoforge_entries(tail, prefix) + vcontrib) =~= (hcontrib
            + neoforge_entries(tail, prefix)) + vcontrib);
        assert(neoforge_entries(whole, prefix) == neoforge_entries(versions, prefix) + vcontrib);
    }
}

/// Builds the neoforge version list for one game version: of the whole
/// catalog, the versions whose artifact prefix matches the game version,
/// in catalog order, beta builds marked unstable.
pub fn neoforge_loader_versions(versions: &Vec<String>, minecraft_version: &str) -> (r: Vec<
    LoaderVersion,
>)
    ensures
        r@.map_values(|l: LoaderVersion| lv_model(l)) == neoforge_entries(
            versions@.map_values(|v: String| v@),
            neoforge_prefix(minecraft_version@),
        ),
{
    let ghost vm = versions@.map_values(|v: String| v@);
    let prefix: &str = if starts_with_str(minecraft_version, "1.") {
        let ml = minecraft_version.unicode_len();
        proof {
            reveal_strlit("1.");
            assert(minecraft_version@.len() >= 2);
        }
        minecraft_version.substring_char(2, ml)
    } else {
        minecraft_version
    };
    let ghost pm = neoforge_prefix(minecraft_version@);
    proof {
        assert(prefix@ == pm);
    }
    let mut out: Vec<LoaderVersion> = Vec::new();
    proof {
        assert(out@.map_values(|l: LoaderVersion| lv_model(l)) =~= neoforge_entries(
            vm.subrange(0, 0),
            pm,
        ));
    }
    let mut i: usize = 0;
    while i < versions.len()
        invariant
            0 <= i <= versions@.len(),
            vm == versions@.map_values(|v: String| v@),
            pm == neoforge_prefix(minecraft_version@),
            out@.map_values(|l: LoaderVersion| lv_model(l)) == neoforge_entries(
                vm.subrange(0, i as int),
                pm,
            ),
            prefix@ == pm,
        decreases versions@.len() - i,
    {
        proof {
            lemma_neoforge_entries_snoc(vm.subrange(0, i as int), vm[i as int], pm);
            assert(vm.subrange(0, i as int).push(vm[i as int]) =~= vm.subrange(0, i + 1));
        }
        if starts_with_str(versions[i].as_str(), prefix) {
            let version = versions[i].clone();
            let stable = !contains_str(version.as_str(), "-beta");
            let mut id = String::from_str("neoforge-");
            id.append(version.as_str());
            let ghost prev = out@;
            out.push(
                LoaderVersion { id, loader: String::from_str("neoforge"), version, stable },
            );
            proof {
                assert(out@.map_values(|l: LoaderVersion| lv_model(l)) =~= prev.map_values(
                    |l: LoaderVersion| lv_model(l),
                ).push(neoforge_entry(vm[i as int])));
                assert(out@.map_values(|l: LoaderVersion| lv_model(l)) =~= neoforge_entries(
                    vm.subrange(0, i + 1),
                    pm,
                ));
            }
        } else {
            proof {
                assert(out@.map_values(|l: LoaderVersion| lv_model(l)) =~= neoforge_entries(
                    vm.subrange(0, i + 1),
                    pm,
                ));
            }
        }
        i = i + 1;
    }
    proof {
        assert(vm.subrange(0, vm.len() as int) =~= vm);
    }
    out
}

/// The list entry made from one forge version.
pub open spec fn forge_entry(v: Seq<char>, stable: bool) -> (Seq<char>, Seq<char>, Seq<char>, bool) {
    ("forge-"@ + v, "forge"@, v, stable)
}

/// The forge entries the promotions map yields for one game version: the
/// recommended build first, marked stable, then the latest build, marked
/// unstable, unless it is the same version.
pub open spec fn forge_entries(promos: Seq<(String, String)>, mc: Seq<char>) -> Seq<
    (Seq<char>, Seq<char>, Seq<char>, bool),
> {
    let rec = crate::librarian::assoc_str(promos, mc + "-recommended"@);
    let lat = crate::librarian::assoc_str(promos, mc + "-latest"@);
    (match rec {
        Some(v) => seq![forge_entry(v, true)],
        None => Seq::<(Seq<char>, Seq<char>, Seq<char>, bool)>::empty(),
    }) + (match lat {
        Some(v) => if rec == Some(v) {
            Seq::<(Seq<char>, Seq<char>, Seq<char>, bool)>::empty()
        } else {
            seq![forge_entry(v, false)]
        },
        None => Seq::<(Seq<char>, Seq<char>, Seq<char>, bool)>::empty(),
    })
}

/// Builds the forge version list for one game version from the promotions
/// map: the recommended build, then the latest build when it differs.
pub fn forge_loader_versions(promos: &Vec<(String, String)>, minecraft_version: &str) -> (r: Vec<
    LoaderVersion,
>)
    ensures
        r@.map_values(|l: LoaderVersion| lv_model(l)) == forge_entries(
            promos@,
            minecraft_version@,
        ),
{
    let mut rec_key = minecraft_version.to_owned();
    rec_key.append("-recommended");
    let mut lat_key = minecraft_version.to_owned();
    lat_key.append("-latest");
    let rec_idx = crate::librarian::lookup_str(promos, rec_key.as_str());
    let lat_idx = crate::librarian::lookup_str(promos, lat_key.as_str());
    let mut out: Vec<LoaderVersion> = Vec::new();
    let mut rec_version: Option<String> = None;
    if let Some(ri) = rec_idx {
        let v = promos[ri].1.clone();
        let mut id = String::from_str("forge-");
        id.append(v.as_str());
        out.push(
            LoaderVersion {
                id,
                loader: String::from_str("forge"),
                version: v.clone(),
                stable: true,
            },
        );
        rec_version = Some(v);
    }
    if let Some(li) = lat_idx {
        let v = promos[li].1.clone();
        let duplicate: bool = match &rec_version {
            Some(rv) => str_eq(rv.as_str(), v.as_str()),
            None => false,
        };
        if !duplicate {
            let mut id = String::from_str("forge-");
            id.append(v.as_str());
            out.push(
                LoaderVersion { id, loader: String::from_str("forge"), version: v, stable: false },
            );
        }
    }
    proof {
        assert(out@.map_values(|l: LoaderVersion| lv_model(l)) =~= forge_entries(
            promos@,
            minecraft_version@,
        ));
    }
    out
}

/// Which loader kind a user-supplied name selects; `vanilla` and unknown
/// names select none.
pub open spec fn loader_kind_of(s: Seq<char>) -> Option<LoaderKind> {
    let l = lower_seq(s);
    if l == "fabric"@ {
        Some(LoaderKind::Fabric)
    } else if l == "quilt"@ {
        Some(LoaderKind::Quilt)
    } else if l == "neoforge"@ {
        Some(LoaderKind::NeoForge)
    } else if l == "forge"@ {
        Some(LoaderKind::Forge)
    } else {
        None
    }
}

/// Parses a loader name, case-insensitively.
pub fn parse_loader_kind(s: &str) -> (r: Option<LoaderKind>)
    ensures
        r == loader_kind_of(s@),
{
    let l = to_lowercase_str(s);
    if str_eq(l.as_str(), "fabric") {
        Some(LoaderKind::Fabric)
    } else if str_eq(l.as_str(), "quilt") {
        Some(LoaderKind::Quilt)
    } else if str_eq(l.as_str(), "neoforge") {
        Some(LoaderKind::NeoForge)
    } else if str_eq(l.as_str(), "forge") {
        Some(LoaderKind::Forge)
    } else {
        None
    }
}

/// The fabric profile endpoint for one game and loader version.
pub fn fabric_profile_url(game_version: &str, loader_version: &str) -> (r: String)
    ensures
        r@ == "https://meta.fabricmc.net/v2/versions/loader/"@ + game_version@ + "/"@
            + loader_version@ + "/profile/json"@,
{
    let mut url = String::from_str("https://meta.fabricmc.net/v2/versions/loader/");
    url.append(game_version);
    url.append("/");
    url.append(loader_version);
    url.append("/profile/json");
    url
}

/// The quilt profile endpoint for one game and loader version.
pub fn quilt_profile_url(game_version: &str, loader_version: &str) -> (r: String)
    ensures
        r@ == "https://meta.quiltmc.org/v3/versions/loader/"@ + game_version@ + "/"@
            + loader_version@ + "/profile/json"@,
{
    let mut url = String::from_str("https://meta.quiltmc.org/v3/versions/loader/");
    url.append(game_version);
    url.append("/");
    url.append(loader_version);
    url.append("/profile/json");
    url
}

/// The fabric loader-list endpoint for one game version.
pub fn fabric_versions_url(minecraft_version: &str) -> (r: String)
    ensures
        r@ == "https://meta.fabricmc.net/v2/versions/loader/"@ + minecraft_version@,
{
    let mut url = String::from_str("https://meta.fabricmc.net/v2/versions/loader/");
    url.append(minecraft_version);
    url
}

/// The quilt loader-list endpoint for one game version.
pub fn quilt_versions_url(minecraft_version: &str) -> (r: String)
    ensures
        r@ == "https://meta.quiltmc.org/v3/versions/loader/"@ + minecraft_version@,
{
    let mut url = String::from_str("https://meta.quiltmc.org/v3/versions/loader/");
    url.append(minecraft_version);
    url
}

/// The neoforge release-catalog endpoint.
pub fn neoforge_versions_url() -> (r: String)
    ensures
        r@ == "https://maven.neoforged.net/api/maven/versions/releases/net/neoforged/neoforge"@,
{
    String::from_str("https://maven.neoforged.net/api/maven/versions/releases/net/neoforged/neoforge")
}

/// The forge promotions endpoint.
pub fn forge_promotions_url() -> (r: String)
    ensures
        r@ == "https://files.minecraftforge.net/net/minecraftforge/forge/promotions_slim.json"@,
{
    String::from_str("https://files.minecraftforge.net/net/minecraftforge/forge/promotions_slim.json")
}

/// The neoforge installer jar for one loader version.
pub fn neoforge_installer_url(loader_version: &str) -> (r: String)
    ensures
        r@ == "https://maven.neoforged.net/releases/net/neoforged/neoforge/"@ + loader_version@
            + "/neoforge-"@ + loader_version@ + "-installer.jar"@,
{
    let mut url = String::from_str("https://maven.neoforged.net/releases/net/neoforged/neoforge/");
    url.append(loader_version);
    url.append("/neoforge-");
    url.append(loader_version);
    url.append("-installer.jar");
    url
}

/// The combined `<game>-<loader>` version the forge installer is published
/// under.
pub fn forge_long_version(game_version: &str, loader_version: &str) -> (r: String)
    ensures
        r@ == game_version@ + "-"@ + loader_version@,
{
    let mut v = game_version.to_owned();
    v.append("-");
    v.append(loader_version);
    v
}

/// The forge installer jar for one game and loader version.
pub fn forge_installer_url(game_version: &str, loader_version: &str) -> (r: String)
    ensures
        r@ == "https://maven.minecraftforge.net/net/minecraftforge/forge/"@ + (game_version@
            + "-"@ + loader_version@) + "/forge-"@ + (game_version@ + "-"@ + loader_version@)
            + "-installer.jar"@,
{
    let long_version = forge_long_version(game_version, loader_version);
    let mut url = String::from_str("https://maven.minecraftforge.net/net/minecraftforge/forge/");
    url.append(long_version.as_str());
    url.append("/forge-");
    url.append(long_version.as_str());
    url.append("-installer.jar");
    url
}

/// The two known installer package layouts.
#[derive(Debug, Clone, Copy, PartialEq, Eq, Structural)]
pub enum InstallerLayout {
    Neoforged,
    Minecraftforge,
}

/// The jar entry whose presence marks each layout.
pub fn installer_marker_entry(layout: InstallerLayout) -> (r: String)
    ensures
        layout == InstallerLayout::Neoforged ==> r@
            == "net/neoforged/installer/SimpleInstaller.class"@,
        layout == InstallerLayout::Minecraftforge ==> r@
            == "net/minecraftforge/installer/SimpleInstaller.class"@,
{
    match layout {
        InstallerLayout::Neoforged => String::from_str(
            "net/neoforged/installer/SimpleInstaller.class",
        ),
        InstallerLayout::Minecraftforge => String::from_str(
            "net/minecraftforge/installer/SimpleInstaller.class",
        ),
    }
}

/// The java package prefix the detected layout's driver program imports.
pub fn installer_package_prefix(layout: InstallerLayout) -> (r: String)
    ensures
        layout == InstallerLayout::Neoforged ==> r@ == "net.neoforged"@,
        layout == InstallerLayout::Minecraftforge ==> r@ == "net.minecraftforge"@,
{
    match layout {
        InstallerLayout::Neoforged => String::from_str("net.neoforged"),
        InstallerLayout::Minecraftforge => String::from_str("net.minecraftforge"),
    }
}

/// Detects which installer package layout an archive holds, from the
/// presence of each layout's marker entry; neither marker present is the
/// unknown-layout failure.
pub fn detect_installer_layout(has_neoforged_marker: bool, has_minecraftforge_marker: bool) -> (r:
    Result<InstallerLayout, crate::errors::LaunchError>)
    ensures
        has_neoforged_marker ==> r == Ok::<InstallerLayout, crate::errors::LaunchError>(
            InstallerLayout::Neoforged,
        ),
        !has_neoforged_marker && has_minecraftforge_marker ==> r == Ok::<
            InstallerLayout,
            crate::errors::LaunchError,
        >(InstallerLayout::Minecraftforge),
        !has_neoforged_marker && !has_minecraftforge_marker ==> (r matches Err(e) && e
            is UnknownInstallerLayout),
{
    if has_neoforged_marker {
        Ok(InstallerLayout::Neoforged)
    } else if has_minecraftforge_marker {
        Ok(InstallerLayout::Minecraftforge)
    } else {
        Err(crate::errors::LaunchError::UnknownInstallerLayout)
    }
}

/// The manifest entry inside a neoforge installer holding the loader
/// profile: `client.json`, else `version.json`.
pub fn neoforge_manifest_entry(has_client_json: bool, has_version_json: bool) -> (r: Option<
    String,
>)
    ensures
        has_client_json ==> (r matches Some(s) && s@ == "client.json"@),
        !has_client_json && has_version_json ==> (r matches Some(s) && s@ == "version.json"@),
        !has_client_json && !has_version_json ==> r is None,
{
    if has_client_json {
        Some(String::from_str("client.json"))
    } else if has_version_json {
        Some(String::from_str("version.json"))
    } else {
        None
    }
}

/// The manifest entry inside a forge installer holding the loader profile:
/// `version.json`, else `install_profile.json`.
pub fn forge_manifest_entry(has_version_json: bool, has_install_profile: bool) -> (r: Option<
    String,
>)
    ensures
        has_version_json ==> (r matches Some(s) && s@ == "version.json"@),
        !has_version_json && has_install_profile ==> (r matches Some(s) && s@
            == "install_profile.json"@),
        !has_version_json && !has_install_profile ==> r is None,
{
    if has_version_json {
        Some(String::from_str("version.json"))
    } else if has_install_profile {
        Some(String::from_str("install_profile.json"))
    } else {
        None
    }
}

} // verus!
