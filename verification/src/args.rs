//! Argument templating: placeholder substitution, expansion of structured
//! argument lists under platform rules, and the authentication-token
//! arguments appended for Microsoft accounts.
use vstd::prelude::*;
use crate::strutil::{replace_seq, replace_all, str_eq, contains_str};
use crate::details::{ArgumentItem, ArgumentValue, eval_arg_rules, check_rules,
    rule_features_ok};
use crate::details::lemma_feature_rules_never_allow;

verus! {

/// Placeholder substitution pairs, applied one after the other.
pub open spec fn apply_subs_seq(s: Seq<char>, subs: Seq<(String, String)>) -> Seq<char>
    decreases subs.len(),
{
    if subs.len() == 0 {
        s
    } else {
        apply_subs_seq(
            replace_seq(s, subs[0].0@, subs[0].1@),
            subs.subrange(1, subs.len() as int),
        )
    }
}

/// All substitution keys are non-empty (a placeholder is at least `${}`).
pub open spec fn subs_wf(subs: Seq<(String, String)>) -> bool {
    forall|i: int| 0 <= i < subs.len() ==> (#[trigger] subs[i]).0@.len() > 0
}

/// Replaces every occurrence of every substitution key by its value, in
/// list order.
pub fn replace_variables(input: &str, subs: &Vec<(String, String)>) -> (r: String)
    requires
        subs_wf(subs@),
    ensures
        r@ == apply_subs_seq(input@, subs@),
{
    let mut cur = input.to_owned();
    proof {
        assert(subs@.subrange(0, subs@.len() as int) =~= subs@);
    }
    let mut i: usize = 0;
    while i < subs.len()
        invariant
            0 <= i <= subs@.len(),
            subs_wf(subs@),
            apply_subs_seq(input@, subs@) == apply_subs_seq(
                cur@,
                subs@.subrange(i as int, subs@.len() as int),
            ),
        decreases subs@.len() - i,
    {
        let ghost rem = subs@.subrange(i as int, subs@.len() as int);
        proof {
            assert(rem[0] == subs@[i as int]);
            assert(rem.subrange(1, rem.len() as int) =~= subs@.subrange(
                i + 1,
                subs@.len() as int,
            ));
        }
        let pair = &subs[i];
        cur = replace_all(cur.as_str(), pair.0.as_str(), pair.1.as_str());
        i = i + 1;
    }
    proof {
        assert(subs@.subrange(subs@.len() as int, subs@.len() as int)
            =~= Seq::<(String, String)>::empty());
    }
    cur
}

/// The tokens one argument item contributes after substitution: a literal
/// contributes itself; a conditional item contributes its payload only when
/// its rules allow.
pub open spec fn expand_one(
    item: ArgumentItem,
    subs: Seq<(String, String)>,
    os: Seq<char>,
    arch: Seq<char>,
) -> Seq<Seq<char>> {
    match item {
        ArgumentItem::Simple(v) => seq![apply_subs_seq(v@, subs)],
        ArgumentItem::Conditional(c) => if eval_arg_rules(c.rules@, os, arch) {
            match c.value {
                ArgumentValue::Single(v) => seq![apply_subs_seq(v@, subs)],
                ArgumentValue::Multiple(vs) => vs@.map_values(|v: String| apply_subs_seq(v@, subs)),
            }
        } else {
            Seq::<Seq<char>>::empty()
        },
    }
}

/// The tokens a whole argument list expands to.
pub open spec fn expand_items_seq(
    items: Seq<ArgumentItem>,
    subs: Seq<(String, String)>,
    os: Seq<char>,
    arch: Seq<char>,
) -> Seq<Seq<char>>
    decreases items.len(),
{
    if items.len() == 0 {
        Seq::<Seq<char>>::empty()
    } else {
        expand_one(items[0], subs, os, arch) + expand_items_seq(
            items.subrange(1, items.len() as int),
            subs,
            os,
            arch,
        )
    }
}

/// Expands a structured argument list: substitutes placeholders in literal
/// items and emits conditional payloads only where their rules allow.
pub fn expand_arguments(
    items: &Vec<ArgumentItem>,
    subs: &Vec<(String, String)>,
    current_os: &str,
    current_arch: &str,
) -> (r: Vec<String>)
    requires
        subs_wf(subs@),
    ensures
        r@.map_values(|x: String| x@) == expand_items_seq(
            items@,
            subs@,
            current_os@,
            current_arch@,
        ),
{
    let ghost os = current_os@;
    let ghost arch = current_arch@;
    let mut out: Vec<String> = Vec::new();
    proof {
        assert(out@.map_values(|x: String| x@) =~= Seq::<Seq<char>>::empty());
    }
    let mut i: usize = 0;
    while i < items.len()
        invariant
            0 <= i <= items@.len(),
            subs_wf(subs@),
            os == current_os@,
            arch == current_arch@,
            out@.map_values(|x: String| x@) == expand_items_seq(
                items@.subrange(0, i as int),
                subs@,
                os,
                arch,
            ),
        decreases items@.len() - i,
    {
        let ghost prefix = items@.subrange(0, i as int);
        let ghost prefix1 = items@.subrange(0, i + 1);
        proof {
            lemma_expand_items_snoc(prefix, items@[i as int], subs@, os, arch);
            assert(prefix.push(items@[i as int]) =~= prefix1);
        }
        match &items[i] {
            ArgumentItem::Simple(v) => {
                let replaced = replace_variables(v.as_str(), subs);
                out.push(replaced);
                proof {
                    assert(out@.map_values(|x: String| x@) =~= out@.subrange(
                        0,
                        out@.len() - 1,
                    ).map_values(|x: String| x@).push(out@[out@.len() - 1]@));
                    assert(expand_one(items@[i as int], subs@, os, arch) =~= seq![out@[out@.len()
                        - 1]@]);
                    assert(out@.map_values(|x: String| x@) =~= expand_items_seq(
                        prefix1,
                        subs@,
                        os,
                        arch,
                    ));
                }
            },
            ArgumentItem::Conditional(c) => {
                let allowed = check_rules(&c.rules, current_os, current_arch);
                if allowed {
                    match &c.value {
                        ArgumentValue::Single(v) => {
                            let replaced = replace_variables(v.as_str(), subs);
                            out.push(replaced);
                            proof {
                                assert(out@.map_values(|x: String| x@) =~= out@.subrange(
                                    0,
                                    out@.len() - 1,
                                ).map_values(|x: String| x@).push(out@[out@.len() - 1]@));
                                assert(expand_one(items@[i as int], subs@, os, arch)
                                    =~= seq![out@[out@.len() - 1]@]);
                                assert(out@.map_values(|x: String| x@) =~= expand_items_seq(
                                    prefix1,
                                    subs@,
                                    os,
                                    arch,
                                ));
                            }
                        },
                        ArgumentValue::Multiple(vs) => {
                            let ghost out0 = out@;
                            let mut j: usize = 0;
                            while j < vs.len()
                                invariant
                                    0 <= j <= vs@.len(),
                                    subs_wf(subs@),
                                    out@.map_values(|x: String| x@) == out0.map_values(
                                        |x: String| x@,
                                    ) + vs@.subrange(0, j as int).map_values(
                                        |v: String| apply_subs_seq(v@, subs@),
                                    ),
                                decreases vs@.len() - j,
                            {
                                let ghost prevout = out@;
                                let replaced = replace_variables(vs[j].as_str(), subs);
                                let ghost repl = replaced@;
                                out.push(replaced);
                                proof {
                                    assert(out@ =~= prevout.push(out@[out@.len() - 1]));
                                    assert(out@.map_values(|x: String| x@) =~= prevout.map_values(
                                        |x: String| x@,
                                    ).push(repl));
                                    assert(vs@.subrange(0, j + 1).map_values(
                                        |v: String| apply_subs_seq(v@, subs@),
                                    ) =~= vs@.subrange(0, j as int).map_values(
                                        |v: String| apply_subs_seq(v@, subs@),
                                    ).push(apply_subs_seq(vs@[j as int]@, subs@)));
                                    assert(repl == apply_subs_seq(vs@[j as int]@, subs@));
                                    assert(out@.map_values(|x: String| x@) =~= out0.map_values(
                                        |x: String| x@,
                                    ) + vs@.subrange(0, j + 1).map_values(
                                        |v: String| apply_subs_seq(v@, subs@),
                                    ));
                                }
                                j = j + 1;
                            }
                            proof {
                                assert(vs@.subrange(0, vs@.len() as int) =~= vs@);
                                assert(expand_one(items@[i as int], subs@, os, arch)
                                    == vs@.map_values(|v: String| apply_subs_seq(v@, subs@)));
                                assert(out@.map_values(|x: String| x@) =~= expand_items_seq(
                                    prefix1,
                                    subs@,
                                    os,
                                    arch,
                                ));
                            }
                        },
                    }
                } else {
                    proof {
                        assert(expand_one(items@[i as int], subs@, os, arch)
                            =~= Seq::<Seq<char>>::empty());
                        assert(out@.map_values(|x: String| x@) =~= expand_items_seq(
                            prefix1,
                            subs@,
                            os,
                            arch,
                        ));
                    }
                }
            },
        }
        i = i + 1;
    }
    proof {
        assert(items@.subrange(0, items@.len() as int) =~= items@);
    }
    out
}

/// Expansion of a list with one more item at its end appends that item's
/// tokens.
proof fn lemma_expand_items_snoc(
    items: Seq<ArgumentItem>,
    item: ArgumentItem,
    subs: Seq<(String, String)>,
    os: Seq<char>,
    arch: Seq<char>,
)
    ensures
        expand_items_seq(items.push(item), subs, os, arch) == expand_items_seq(
            items,
            subs,
            os,
            arch,
        ) + expand_one(item, subs, os, arch),
    decreases items.len(),
{
    let whole = items.push(item);
    if items.len() == 0 {
        assert(whole[0] == item);
        assert(whole.subrange(1, whole.len() as int) =~= Seq::<ArgumentItem>::empty());
        assert(expand_items_seq(Seq::<ArgumentItem>::empty(), subs, os, arch)
            == Seq::<Seq<char>>::empty());
        assert(expand_items_seq(whole, subs, os, arch) == expand_one(item, subs, os, arch)
            + Seq::<Seq<char>>::empty());
        assert(items =~= Seq::<ArgumentItem>::empty());
        assert(expand_one(item, subs, os, arch) + Seq::<Seq<char>>::empty() =~= Seq::<
            Seq<char>,
        >::empty() + expand_one(item, subs, os, arch));
    } else {
        let tail = items.subrange(1, items.len() as int);
        lemma_expand_items_snoc(tail, item, subs, os, arch);
        assert(whole.subrange(1, whole.len() as int) =~= tail.push(item));
        assert(whole[0] == items[0]);
        assert(expand_items_seq(whole, subs, os, arch) == expand_one(items[0], subs, os, arch)
            + expand_items_seq(tail.push(item), subs, os, arch));
        assert(expand_items_seq(items, subs, os, arch) == expand_one(items[0], subs, os, arch)
            + expand_items_seq(tail, subs, os, arch));
        let e0 = expand_one(items[0], subs, os, arch);
        let et = expand_items_seq(tail, subs, os, arch);
        let ei = expand_one(item, subs, os, arch);
        assert(e0 + (et + ei) =~= (e0 + et) + ei);
        assert(expand_items_seq(whole, subs, os, arch) == expand_items_seq(items, subs, os, arch)
            + expand_one(item, subs, os, arch));
    }
}

/// A conditional argument each of whose rules demands a feature flag is
/// never emitted, whatever the platform and substitutions.
pub proof fn lemma_feature_argument_never_emitted(
    c: crate::details::ConditionalArgument,
    subs: Seq<(String, String)>,
    os: Seq<char>,
    arch: Seq<char>,
)
    requires
        forall|i: int| 0 <= i < c.rules@.len() ==> !rule_features_ok(#[trigger] c.rules@[i]),
    ensures
        expand_one(ArgumentItem::Conditional(c), subs, os, arch) == Seq::<Seq<char>>::empty(),
{
    lemma_feature_rules_never_allow(c.rules@, os, arch);
}

/// The list of tokens contains the given one.
pub open spec fn contains_token(args: Seq<Seq<char>>, t: Seq<char>) -> bool {
    exists|i: int| 0 <= i < args.len() && args[i] == t
}

/// Whether some argument equals the given token.
pub fn has_token(args: &Vec<String>, t: &str) -> (r: bool)
    ensures
        r == contains_token(args@.map_values(|x: String| x@), t@),
{
    let ghost view = args@.map_values(|x: String| x@);
    let mut i: usize = 0;
    while i < args.len()
        invariant
            0 <= i <= args@.len(),
            view == args@.map_values(|x: String| x@),
            forall|j: int| 0 <= j < i ==> args@[j]@ != t@,
        decreases args@.len() - i,
    {
        if str_eq(args[i].as_str(), t) {
            assert(view[i as int] == t@);
            return true;
        }
        i = i + 1;
    }
    assert(forall|j: int| 0 <= j < view.len() ==> view[j] != t@);
    false
}

/// The authentication tokens owed after expansion for a Microsoft account:
/// `--xuid` (omitted when the xuid is the sentinel "0"), `--clientId` with
/// the fixed placeholder id, `--userProperties` with an empty object — each
/// only when the expansion did not already emit it.
pub open spec fn microsoft_extra_args(args: Seq<Seq<char>>, xuid: Seq<char>) -> Seq<Seq<char>> {
    (if !contains_token(args, "--xuid"@) && xuid != "0"@ {
        seq!["--xuid"@, xuid]
    } else {
        Seq::<Seq<char>>::empty()
    }) + (if !contains_token(args, "--clientId"@) {
        seq!["--clientId"@, "00000000-0000-0000-0000-000000000000"@]
    } else {
        Seq::<Seq<char>>::empty()
    }) + (if !contains_token(args, "--userProperties"@) {
        seq!["--userProperties"@, "{}"@]
    } else {
        Seq::<Seq<char>>::empty()
    })
}

/// Appends the missing authentication tokens for a Microsoft account; for
/// any other account the list is left unchanged.
pub fn append_microsoft_args(args: &mut Vec<String>, is_microsoft: bool, xuid: &str)
    ensures
        final(args)@.map_values(|x: String| x@) == old(args)@.map_values(|x: String| x@) + (
        if is_microsoft {
            microsoft_extra_args(old(args)@.map_values(|x: String| x@), xuid@)
        } else {
            Seq::<Seq<char>>::empty()
        }),
{
    let ghost before = args@.map_values(|x: String| x@);
    if !is_microsoft {
        proof {
            assert(before =~= before + Seq::<Seq<char>>::empty());
        }
        return ;
    }
    let had_xuid = has_token(args, "--xuid");
    let had_client = has_token(args, "--clientId");
    let had_props = has_token(args, "--userProperties");
    if !had_xuid && !str_eq(xuid, "0") {
        args.push(String::from_str("--xuid"));
        args.push(xuid.to_owned());
    }
    if !had_client {
        args.push(String::from_str("--clientId"));
        args.push(String::from_str("00000000-0000-0000-0000-000000000000"));
    }
    if !had_props {
        args.push(String::from_str("--userProperties"));
        args.push(String::from_str("{}"));
    }
    proof {
        assert(args@.map_values(|x: String| x@) =~= before + microsoft_extra_args(before, xuid@));
    }
}

/// The parts joined with a separator character between consecutive parts.
pub open spec fn join_with(parts: Seq<Seq<char>>, sep: char) -> Seq<char>
    decreases parts.len(),
{
    if parts.len() == 0 {
        Seq::<char>::empty()
    } else if parts.len() == 1 {
        parts[0]
    } else {
        parts[0] + seq![sep] + join_with(parts.subrange(1, parts.len() as int), sep)
    }
}

/// Joins classpath entries with the platform's separator character.
pub fn join_classpath(entries: &Vec<String>, sep: char) -> (r: String)
    ensures
        r@ == join_with(entries@.map_values(|x: String| x@), sep),
{
    let ghost parts = entries@.map_values(|x: String| x@);
    let mut out = String::new();
    if entries.len() == 0 {
        proof {
            assert(out@ =~= join_with(parts, sep));
        }
        return out;
    }
    out.append(entries[0].as_str());
    proof {
        if parts.len() > 1 {
            assert(parts.subrange(0, parts.len() as int) =~= parts);
            assert(parts.subrange(1, parts.len() as int) == parts.subrange(
                1,
                parts.len() as int,
            ));
            assert(join_with(parts, sep) == parts[0] + seq![sep] + join_with(
                parts.subrange(1, parts.len() as int),
                sep,
            ));
            assert(out@ =~= Seq::<char>::empty() + parts[0]);
        } else {
            assert(out@ =~= Seq::<char>::empty() + parts[0]);
        }
    }
    let mut i: usize = 1;
    while i < entries.len()
        invariant
            1 <= i <= entries@.len(),
            parts == entries@.map_values(|x: String| x@),
            parts.len() == entries@.len(),
            i < parts.len() ==> join_with(parts, sep) == out@ + seq![sep] + join_with(
                parts.subrange(i as int, parts.len() as int),
                sep,
            ),
            i == parts.len() ==> join_with(parts, sep) == out@,
        decreases entries@.len() - i,
    {
        let ghost rem = parts.subrange(i as int, parts.len() as int);
        proof {
            assert(rem[0] == parts[i as int]);
            assert(rem.subrange(1, rem.len() as int) =~= parts.subrange(
                i + 1,
                parts.len() as int,
            ));
            if rem.len() > 1 {
                assert(join_with(rem, sep) == rem[0] + seq![sep] + join_with(
                    parts.subrange(i + 1, parts.len() as int),
                    sep,
                ));
            }
        }
        let mut sep_str = String::new();
        sep_str = crate::strutil::push_char(sep_str, sep);
        out.append(sep_str.as_str());
        out.append(entries[i].as_str());
        proof {
            if i + 1 < parts.len() {
                assert(join_with(parts, sep) =~= out@ + seq![sep] + join_with(
                    parts.subrange(i + 1, parts.len() as int),
                    sep,
                ));
            } else {
                assert(join_with(parts, sep) =~= out@);
            }
        }
        i = i + 1;
    }
    out
}

} // verus!
