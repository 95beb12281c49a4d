//! Native extraction planning: which entries of a classifier jar are
//! copied, verbatim and with their directory structure, into the natives
//! directory.
use vstd::prelude::*;
use vstd::string::StrSliceExecFns;
use crate::strutil::{contains_seq, contains_str, str_eq, starts_with_str, match_at};

verus! {

/// The entry name ends in `.<ext>` with the dot inside the final path
/// segment, as a file extension.
pub open spec fn has_extension(p: Seq<char>, ext: Seq<char>) -> bool {
    &&& p.len() >= ext.len() + 2
    &&& p[p.len() - ext.len() - 1] == '.'
    &&& p.subrange(p.len() - ext.len() as int, p.len() as int) == ext
    &&& p[p.len() - ext.len() - 2] != '/'
}

/// The entry is a platform shared library: `.dll`, `.so` or `.dylib`.
pub open spec fn shared_lib_entry(p: Seq<char>) -> bool {
    has_extension(p, "dll"@) || has_extension(p, "so"@) || has_extension(p, "dylib"@)
}

/// The entry lies under the reserved jar metadata directory.
pub open spec fn meta_inf_entry(p: Seq<char>) -> bool {
    p == "META-INF"@ || "META-INF/"@.is_prefix_of(p)
}

/// Some exclude pattern occurs in the entry name.
pub open spec fn excluded_entry(p: Seq<char>, excludes: Seq<Seq<char>>) -> bool {
    exists|i: int| 0 <= i < excludes.len() && contains_seq(p, #[trigger] excludes[i])
}

/// The entry is a directory entry (its name ends with a slash).
pub open spec fn dir_entry(p: Seq<char>) -> bool {
    p.len() > 0 && p[p.len() - 1] == '/'
}

/// The entry is extracted: not under the metadata directory, not excluded,
/// not a directory, and a platform shared library.
pub open spec fn entry_extracted(p: Seq<char>, excludes: Seq<Seq<char>>) -> bool {
    !meta_inf_entry(p) && !excluded_entry(p, excludes) && !dir_entry(p) && shared_lib_entry(p)
}

/// The extracted entries of a whole listing, in order.
pub open spec fn extracted_of(entries: Seq<Seq<char>>, excludes: Seq<Seq<char>>) -> Seq<Seq<char>>
    decreases entries.len(),
{
    if entries.len() == 0 {
        Seq::<Seq<char>>::empty()
    } else {
        (if entry_extracted(entries[0], excludes) {
            seq![entries[0]]
        } else {
            Seq::<Seq<char>>::empty()
        }) + extracted_of(entries.subrange(1, entries.len() as int), excludes)
    }
}

/// Whether the entry name ends in `.<ext>` as a file extension.
pub fn has_extension_str(p: &str, ext: &str) -> (r: bool)
    ensures
        r == has_extension(p@, ext@),
{
    let pl = p.unicode_len();
    let el = ext.unicode_len();
    if pl < 2 || pl - 2 < el {
        return false;
    }
    if p.get_char(pl - el - 1) != '.' {
        return false;
    }
    if !match_at(p, ext, pl - el) {
        return false;
    }
    if p.get_char(pl - el - 2) == '/' {
        return false;
    }
    true
}

/// Whether some exclude pattern occurs in the entry name.
fn excluded_entry_exec(p: &str, excludes: &Vec<String>) -> (r: bool)
    ensures
        r == excluded_entry(p@, excludes@.map_values(|x: String| x@)),
{
    let ghost model = excludes@.map_values(|x: String| x@);
    let mut i: usize = 0;
    while i < excludes.len()
        invariant
            0 <= i <= excludes@.len(),
            model == excludes@.map_values(|x: String| x@),
            forall|j: int| 0 <= j < i ==> !contains_seq(p@, #[trigger] model[j]),
        decreases excludes@.len() - i,
    {
        if contains_str(p, excludes[i].as_str()) {
            assert(contains_seq(p@, model[i as int]));
            return true;
        }
        i = i + 1;
    }
    false
}

/// Whether one jar entry is extracted.
pub fn should_extract_entry(p: &str, excludes: &Vec<String>) -> (r: bool)
    ensures
        r == entry_extracted(p@, excludes@.map_values(|x: String| x@)),
{
    if str_eq(p, "META-INF") || starts_with_str(p, "META-INF/") {
        return false;
    }
    if excluded_entry_exec(p, excludes) {
        return false;
    }
    let pl = p.unicode_len();
    if pl > 0 && p.get_char(pl - 1) == '/' {
        return false;
    }
    has_extension_str(p, "dll") || has_extension_str(p, "so") || has_extension_str(p, "dylib")
}

/// Plans a native extraction: of all entries of the jar, in their order,
/// exactly those that are shared libraries, not under the metadata
/// directory, not excluded and not directories; each is copied verbatim to
/// the same relative path under the output directory.
pub fn plan_native_extraction(entries: &Vec<String>, excludes: &Vec<String>) -> (r: Vec<String>)
    ensures
        r@.map_values(|x: String| x@) == extracted_of(
            entries@.map_values(|x: String| x@),
            excludes@.map_values(|x: String| x@),
        ),
{
    let ghost em = entries@.map_values(|x: String| x@);
    let ghost xm = excludes@.map_values(|x: String| x@);
    let mut out: Vec<String> = Vec::new();
    proof {
        assert(out@.map_values(|x: String| x@) =~= extracted_of(em.subrange(0, 0), xm));
    }
    let mut i: usize = 0;
    while i < entries.len()
        invariant
            0 <= i <= entries@.len(),
            em == entries@.map_values(|x: String| x@),
            xm == excludes@.map_values(|x: String| x@),
            out@.map_values(|x: String| x@) == extracted_of(em.subrange(0, i as int), xm),
        decreases entries@.len() - i,
    {
        proof {
            lemma_extracted_snoc(em.subrange(0, i as int), em[i as int], xm);
            assert(em.subrange(0, i as int).push(em[i as int]) =~= em.subrange(0, i + 1));
        }
        if should_extract_entry(entries[i].as_str(), excludes) {
            let ghost prevout = out@;
            out.push(entries[i].clone());
            proof {
                assert(out@[out@.len() - 1]@ == em[i as int]);
                assert(out@.map_values(|x: String| x@) =~= prevout.map_values(|x: String| x@).push(
                    em[i as int],
                ));
                assert(out@.map_values(|x: String| x@) =~= extracted_of(
                    em.subrange(0, i + 1),
                    xm,
                ));
            }
        } else {
            proof {
                assert(out@.map_values(|x: String| x@) =~= extracted_of(
                    em.subrange(0, i + 1),
                    xm,
                ));
            }
        }
        i = i + 1;
    }
    proof {
        assert(em.subrange(0, em.len() as int) =~= em);
    }
    out
}

proof fn lemma_extracted_snoc(entries: Seq<Seq<char>>, e: Seq<char>, excludes: Seq<Seq<char>>)
    ensures
        extracted_of(entries.push(e), excludes) == extracted_of(entries, excludes) + (
        if entry_extracted(e, excludes) {
            seq![e]
        } else {
            Seq::<Seq<char>>::empty()
        }),
    decreases entries.len(),
{
    let whole = entries.push(e);
    if entries.len() == 0 {
        assert(whole[0] == e);
        assert(whole.subrange(1, whole.len() as int) =~= Seq::<Seq<char>>::empty());
        assert(extracted_of(Seq::<Seq<char>>::empty(), excludes) == Seq::<Seq<char>>::empty());
        assert(extracted_of(whole, excludes) =~= extracted_of(entries, excludes) + (
        if entry_extracted(e, excludes) {
            seq![e]
        } else {
            Seq::<Seq<char>>::empty()
        }));
    } else {
        let tail = entries.subrange(1, entries.len() as int);
        lemma_extracted_snoc(tail, e, excludes);
        assert(whole.subrange(1, whole.len() as int) =~= tail.push(e));
        assert(whole[0] == entries[0]);
        assert(extracted_of(whole, excludes) =~= extracted_of(entries, excludes) + (
        if entry_extracted(e, excludes) {
            seq![e]
        } else {
            Seq::<Seq<char>>::empty()
        }));
    }
}

} // verus!
