//! Asset synchronization planning: content-addressed object paths, the set
//! of objects still to download, and the progress events a sync emits.
use vstd::prelude::*;
use vstd::string::StrSliceExecFns;
use vstd::string::StringExecFns;

verus! {

/// One entry of a parsed asset index: a content hash and a size.
#[derive(Debug, Clone, PartialEq)]
pub struct AssetObject {
    pub hash: String,
    pub size: u64,
}

/// One progress event handed to the presentation layer. `permille` is the
/// overall launch progress in tenths of a percent (0..=1000).
#[derive(Debug, Clone, Copy, PartialEq, Eq, Structural)]
pub struct ProgressEvent {
    pub current: u64,
    pub total: u64,
    pub permille: u64,
}

/// The relative path of a content-addressed object:
/// `objects/<first two hash characters>/<hash>`.
pub open spec fn asset_rel_path(h: Seq<char>) -> Seq<char> {
    "objects/"@ + h.subrange(0, 2) + "/"@ + h
}

/// The download URL of a content-addressed object.
pub open spec fn asset_url(h: Seq<char>) -> Seq<char> {
    "https://resources.download.minecraft.net/"@ + h.subrange(0, 2) + "/"@ + h
}

/// The relative path an asset object is stored at.
pub fn asset_object_rel_path(hash: &str) -> (r: String)
    requires
        hash@.len() >= 2,
    ensures
        r@ == asset_rel_path(hash@),
{
    let mut out = String::from_str("objects/");
    out.append(hash.substring_char(0, 2));
    out.append("/");
    out.append(hash);
    proof {
        reveal_strlit("/");
    }
    out
}

/// The URL an asset object is downloaded from.
pub fn asset_object_url(hash: &str) -> (r: String)
    requires
        hash@.len() >= 2,
    ensures
        r@ == asset_url(hash@),
{
    let mut out = String::from_str("https://resources.download.minecraft.net/");
    out.append(hash.substring_char(0, 2));
    out.append("/");
    out.append(hash);
    proof {
        reveal_strlit("/");
    }
    out
}

/// The indices of the objects that are not present, in order.
pub open spec fn missing_indices(present: Seq<bool>, upto: int) -> Seq<int>
    decreases upto,
{
    if upto <= 0 {
        Seq::<int>::empty()
    } else {
        missing_indices(present, upto - 1) + (if !present[upto - 1] {
            seq![upto - 1]
        } else {
            Seq::<int>::empty()
        })
    }
}

/// Plans an asset sync: exactly the objects whose target path does not
/// already exist are downloaded, in index order; objects already cached
/// are never re-fetched.
pub fn plan_asset_downloads(present: &Vec<bool>) -> (r: Vec<usize>)
    ensures
        r@.map_values(|x: usize| x as int) == missing_indices(present@, present@.len() as int),
{
    let mut out: Vec<usize> = Vec::new();
    proof {
        assert(out@.map_values(|x: usize| x as int) =~= missing_indices(present@, 0));
    }
    let mut i: usize = 0;
    while i < present.len()
        invariant
            0 <= i <= present@.len(),
            out@.map_values(|x: usize| x as int) == missing_indices(present@, i as int),
        decreases present@.len() - i,
    {
        if !present[i] {
            let ghost prevout = out@;
            out.push(i);
            proof {
                assert(out@.map_values(|x: usize| x as int) =~= prevout.map_values(
                    |x: usize| x as int,
                ).push(i as int));
                assert(out@.map_values(|x: usize| x as int) =~= missing_indices(
                    present@,
                    i + 1,
                ));
            }
        } else {
            proof {
                assert(out@.map_values(|x: usize| x as int) =~= missing_indices(
                    present@,
                    i + 1,
                ));
            }
        }
        i = i + 1;
    }
    out
}

/// Overall progress in permille, scaling `current/total` into the band
/// `[lo, hi]` (both in permille). An empty total counts as complete.
pub open spec fn band_permille(lo: int, hi: int, current: int, total: int) -> int {
    if total <= 0 {
        hi
    } else {
        lo + ((hi - lo) * current) / total
    }
}

/// Scales a counter into a progress band, in permille of the whole launch.
pub fn scaled_permille(lo: u64, hi: u64, current: u64, total: u64) -> (r: u64)
    requires
        lo <= hi <= 1000,
        current <= total,
    ensures
        r == band_permille(lo as int, hi as int, current as int, total as int),
        r <= 1000,
{
    if total == 0 {
        return hi;
    }
    let span = (hi - lo) as u128;
    proof {
        assert((span as int) * (current as u128 as int) <= 1000 * 0xFFFF_FFFF_FFFF_FFFF)
            by (nonlinear_arith)
            requires
                span as int <= 1000,
                0 <= current as u128 as int <= 0xFFFF_FFFF_FFFF_FFFF,
        ;
    }
    let scaled = (span * (current as u128)) / (total as u128);
    proof {
        let s = span as int;
        let c = current as int;
        let t = total as int;
        assert(s * c <= s * t) by (nonlinear_arith)
            requires
                c <= t,
                s >= 0,
        ;
        assert(s * c / t <= s * t / t) by (nonlinear_arith)
            requires
                t > 0,
                s * c <= s * t,
        ;
        assert(s * t / t == s) by (nonlinear_arith)
            requires
                t > 0,
        ;
        assert(scaled as int == s * c / t);
        assert(scaled <= span);
    }
    lo + (scaled as u64)
}

/// The mid-sync progress events: one after every tenth completed download,
/// and one after the last download when their number is not a multiple of
/// ten. `current` counts completed downloads; the permille value scales
/// them into the opening band of the launch (0 to 200).
pub open spec fn asset_mid_events(d: u64) -> Seq<ProgressEvent> {
    Seq::new(
        (d / 10) as nat,
        |i: int|
            ProgressEvent {
                current: (10 * (i + 1)) as u64,
                total: d,
                permille: (200 * (10 * (i + 1)) / (d as int)) as u64,
            },
    ) + (if d % 10 != 0 {
        seq![ProgressEvent { current: d, total: d, permille: 200 }]
    } else {
        Seq::<ProgressEvent>::empty()
    })
}

/// All progress events of one asset sync: the mid-sync events, then one
/// completion event, always, with `current == total` and the band's upper
/// bound.
pub open spec fn asset_events(total_objects: u64, d: u64) -> Seq<ProgressEvent> {
    asset_mid_events(d) + seq![
        ProgressEvent { current: total_objects, total: total_objects, permille: 200 },
    ]
}

/// The progress events of a sync of `total_objects` objects of which `d`
/// were downloaded: a sync with nothing to download emits exactly one
/// event, complete at the top of the band.
pub fn asset_progress_events(total_objects: u64, d: u64) -> (r: Vec<ProgressEvent>)
    ensures
        r@ == asset_events(total_objects, d),
        d == 0 ==> r@.len() == 1 && r@[0].current == r@[0].total && r@[0].permille == 200,
{
    let mut out: Vec<ProgressEvent> = Vec::new();
    let tenths = d / 10;
    let mut i: u64 = 0;
    while i < tenths
        invariant
            0 <= i <= tenths,
            tenths == d / 10,
            out@ =~= Seq::new(
                i as nat,
                |k: int|
                    ProgressEvent {
                        current: (10 * (k + 1)) as u64,
                        total: d,
                        permille: (200 * (10 * (k + 1)) / (d as int)) as u64,
                    },
            ),
        decreases tenths - i,
    {
        let current = 10 * (i + 1);
        let p = scaled_permille(0, 200, current, d);
        out.push(ProgressEvent { current, total: d, permille: p });
        i = i + 1;
        proof {
            assert(out@ =~= Seq::new(
                i as nat,
                |k: int|
                    ProgressEvent {
                        current: (10 * (k + 1)) as u64,
                        total: d,
                        permille: (200 * (10 * (k + 1)) / (d as int)) as u64,
                    },
            ));
        }
    }
    if d % 10 != 0 {
        out.push(ProgressEvent { current: d, total: d, permille: 200 });
    }
    proof {
        assert(out@ =~= asset_mid_events(d));
    }
    out.push(ProgressEvent { current: total_objects, total: total_objects, permille: 200 });
    proof {
        assert(out@ =~= asset_events(total_objects, d));
        if d == 0 {
            assert(asset_mid_events(0) =~= Seq::<ProgressEvent>::empty());
        }
    }
    out
}

} // verus!
