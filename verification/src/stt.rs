//! Offline speech recognition: where the recognition model comes from,
//! and the text taken from a recognizer's final result.

use vstd::prelude::*;

verus! {

/// Where the Chinese recognition model is downloaded from.
pub const MODEL_URL: &'static str = "https://alphacephei.com/vosk/models/vosk-model-small-cn-0.22.zip";

/// The directory the model unpacks to, under the application's data
/// directory.
pub const MODEL_DIR_NAME: &'static str = "vosk-model-small-cn-0.22";

/// The final result of a recognizer: one text, or ranked alternatives.
#[derive(Debug)]
pub enum Recognition {
    Single(String),
    Alternatives(Vec<String>),
}

/// The transcript taken from a final result: the text, or the best
/// alternative, or nothing when there is no alternative.
pub open spec fn transcript_spec(r: Recognition) -> Seq<char> {
    match r {
        Recognition::Single(text) => text@,
        Recognition::Alternatives(alts) => if alts.len() > 0 {
            alts[0]@
        } else {
            Seq::empty()
        },
    }
}

/// The transcript taken from a recognizer's final result.
pub fn transcript_of(r: Recognition) -> (t: String)
    ensures
        t@ == transcript_spec(r),
{
    match r {
        Recognition::Single(text) => text,
        Recognition::Alternatives(alts) => if alts.len() > 0 {
            alts[0].clone()
        } else {
            String::new()
        },
    }
}

/// The kind of one component of a file path, as `std::path::Component`
/// tells them apart.
#[derive(PartialEq, Eq, Structural, Clone, Copy, Debug)]
pub enum PathPartKind {
    Prefix,
    Root,
    Current,
    Parent,
    Normal,
}

/// Whether a component of an archive entry's name stays in the path the
/// entry is unpacked to under the target directory: only plain names do;
/// a root, a drive prefix, `.` and `..` are dropped.
pub open spec fn is_kept(kind: PathPartKind) -> bool {
    kind == PathPartKind::Normal
}

/// The positions of the components that stay, in order.
pub open spec fn kept_positions(kinds: Seq<PathPartKind>) -> Seq<usize>
    decreases kinds.len(),
{
    if kinds.len() == 0 {
        Seq::empty()
    } else {
        let acc = kept_positions(kinds.drop_last());
        if is_kept(kinds.last()) {
            acc.push((kinds.len() - 1) as usize)
        } else {
            acc
        }
    }
}

proof fn lemma_kept_positions(kinds: Seq<PathPartKind>)
    requires
        kinds.len() <= usize::MAX,
    ensures
        forall|i: int| 0 <= i < kept_positions(kinds).len() ==> {
            &&& (#[trigger] kept_positions(kinds)[i]) < kinds.len()
            &&& is_kept(kinds[kept_positions(kinds)[i] as int])
        },
        forall|i: int, j: int| 0 <= i < j < kept_positions(kinds).len() ==>
            #[trigger] kept_positions(kinds)[i] < #[trigger] kept_positions(kinds)[j],
        forall|k: int| 0 <= k < kinds.len() && is_kept(#[trigger] kinds[k]) ==>
            kept_positions(kinds).contains(k as usize),
    decreases kinds.len(),
{
    if kinds.len() > 0 {
        let init = kinds.drop_last();
        let n = kinds.len() - 1;
        lemma_kept_positions(init);
        let acc = kept_positions(init);
        let kp = kept_positions(kinds);
        assert forall|i: int| 0 <= i < init.len() implies init[i] == #[trigger] kinds[i] by {}
        if is_kept(kinds[n]) {
            assert(kp == acc.push(n as usize));
            assert forall|i: int| 0 <= i < kp.len() implies (#[trigger] kp[i]) < kinds.len() && is_kept(kinds[kp[i] as int]) by {
                if i < acc.len() {
                    assert(kp[i] == acc[i]);
                    assert(init[acc[i] as int] == kinds[acc[i] as int]);
                }
            }
            assert forall|i: int, j: int| 0 <= i < j < kp.len() implies #[trigger] kp[i] < #[trigger] kp[j] by {
                assert(kp[i] == acc[i]);
                if j < acc.len() {
                    assert(kp[j] == acc[j]);
                }
            }
            assert forall|k: int| 0 <= k < kinds.len() && is_kept(#[trigger] kinds[k]) implies
                kp.contains(k as usize) by {
                if k < n {
                    let w = choose|w: int| 0 <= w < acc.len() && acc[w] == k as usize;
                    assert(kp[w] == k as usize);
                } else {
                    assert(kp[acc.len() as int] == k as usize);
                }
            }
        } else {
            assert(kp == acc);
            assert forall|i: int| 0 <= i < kp.len() implies (#[trigger] kp[i]) < kinds.len() && is_kept(kinds[kp[i] as int]) by {
                assert(init[acc[i] as int] == kinds[acc[i] as int]);
            }
            assert forall|k: int| 0 <= k < kinds.len() && is_kept(#[trigger] kinds[k]) implies
                kp.contains(k as usize) by {
                assert(k < n);
                let w = choose|w: int| 0 <= w < acc.len() && acc[w] == k as usize;
                assert(kp[w] == k as usize);
            }
        }
    }
}

/// Which components of the name of an archive entry are kept when the
/// entry is unpacked under the target directory: the plain names only,
/// so that the unpacked path, the target directory followed by these
/// names, always lies under the target directory (no root, drive prefix,
/// `.` or `..` survives).  Returns their positions, in order.
pub fn kept_path_parts(kinds: &Vec<PathPartKind>) -> (r: Vec<usize>)
    ensures
        r@ == kept_positions(kinds@),
        forall|i: int| 0 <= i < r.len() ==> (#[trigger] r@[i]) < kinds.len() && kinds@[r@[i] as int] == PathPartKind::Normal,
        forall|i: int, j: int| 0 <= i < j < r.len() ==> #[trigger] r@[i] < #[trigger] r@[j],
        forall|k: int| 0 <= k < kinds.len() && (#[trigger] kinds@[k]) == PathPartKind::Normal ==> r@.contains(k as usize),
{
    let mut r: Vec<usize> = Vec::new();
    let mut i: usize = 0;
    while i < kinds.len()
        invariant
            i <= kinds.len(),
            r@ == kept_positions(kinds@.take(i as int)),
        decreases kinds.len() - i,
    {
        assert(kinds@.take(i + 1).drop_last() =~= kinds@.take(i as int));
        assert(kinds@.take(i + 1).last() == kinds@[i as int]);
        if kinds[i] == PathPartKind::Normal {
            r.push(i);
        }
        i = i + 1;
    }
    assert(kinds@.take(kinds.len() as int) =~= kinds@);
    proof {
        lemma_kept_positions(kinds@);
    }
    r
}

} // verus!
