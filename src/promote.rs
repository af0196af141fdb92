use vstd::prelude::*;

use crate::data::{lemma_version_order_total, version_lt, VersionTag};
use crate::local::{
    build_version, builds_view, executable_file_name, get_executable_file_name, scan_builds,
    LocalBuild,
};
use crate::text::{chars_contain, chars_lt, chars_of, contains_char, lemma_seq_lt_order, seq_lt};
use crate::Error;

verus! {

/// What one promotion pass decided. Handing off means that the caller starts
/// the named executable in place of the running process, which never returns.
pub enum Promotion {
    /// Mark the newer build `file_name` executable and hand off to it.
    HandOff { file_name: String },
    /// Copy the running executable `from` to the canonical name `to` in the
    /// same directory, then hand off to `to`.
    CopySelfAndHandOff { from: String, to: String },
    /// Nothing to hand off to: delete these stale builds, oldest first (by
    /// version, then file name), stopping at the first failure.
    Prune { stale: Vec<String> },
}

/// Build `a` sorts before build `b`: by version, then by file name.
pub open spec fn build_lt(a: (VersionTag, Seq<char>), b: (VersionTag, Seq<char>)) -> bool {
    version_lt(a.0, b.0) || (a.0 == b.0 && seq_lt(a.1, b.1))
}

/// The order of builds is a strict total order.
pub proof fn lemma_build_lt_order(
    a: (VersionTag, Seq<char>),
    b: (VersionTag, Seq<char>),
    c: (VersionTag, Seq<char>),
)
    ensures
        !build_lt(a, a),
        a != b ==> build_lt(a, b) || build_lt(b, a),
        build_lt(a, b) && build_lt(b, c) ==> build_lt(a, c),
{
    lemma_version_order_total(a.0, b.0, c.0);
    lemma_version_order_total(b.0, c.0, a.0);
    lemma_version_order_total(a.0, c.0, b.0);
    lemma_seq_lt_order(a.1, b.1, c.1);
}

/// `b` does not sort before `a`, given `a` does not before `b` and `b` not before `c`.
proof fn lemma_build_le_trans(
    a: (VersionTag, Seq<char>),
    b: (VersionTag, Seq<char>),
    c: (VersionTag, Seq<char>),
)
    requires
        !build_lt(b, a),
        !build_lt(c, b),
    ensures
        !build_lt(c, a),
{
    lemma_build_lt_order(a, b, c);
    lemma_build_lt_order(c, a, b);
    lemma_build_lt_order(b, a, c);
}

/// Index of the greatest build by version, then file name (0 for no builds).
pub open spec fn newest_index(bs: Seq<(VersionTag, Seq<char>)>) -> int
    decreases bs.len(),
{
    if bs.len() <= 1 {
        0
    } else {
        let k = newest_index(bs.drop_last());
        if build_lt(bs[k], bs.last()) {
            bs.len() - 1
        } else {
            k
        }
    }
}

/// Some build is newer than `running`, judged by the newest one.
pub open spec fn has_newer_build(bs: Seq<(VersionTag, Seq<char>)>, running: VersionTag) -> bool {
    bs.len() > 0 && version_lt(running, bs[newest_index(bs)].0)
}

/// The builds that are not newer than `running`, in the order of `bs`.
pub open spec fn not_newer(bs: Seq<(VersionTag, Seq<char>)>, running: VersionTag) -> Seq<
    (VersionTag, Seq<char>),
>
    decreases bs.len(),
{
    if bs.len() == 0 {
        Seq::empty()
    } else {
        let prev = not_newer(bs.drop_last(), running);
        if version_lt(running, bs.last().0) {
            prev
        } else {
            prev.push(bs.last())
        }
    }
}

/// Where `x` goes in `s`: before the first element that does not sort before it.
pub open spec fn insert_pos(s: Seq<(VersionTag, Seq<char>)>, x: (VersionTag, Seq<char>)) -> int
    decreases s.len(),
{
    if s.len() == 0 {
        0
    } else if !build_lt(s[0], x) {
        0
    } else {
        1 + insert_pos(s.drop_first(), x)
    }
}

/// `s` with `x` inserted at its place.
pub open spec fn insert_sorted(s: Seq<(VersionTag, Seq<char>)>, x: (VersionTag, Seq<char>)) -> Seq<
    (VersionTag, Seq<char>),
> {
    s.insert(insert_pos(s, x), x)
}

/// The builds not newer than `running`, in ascending order of version, then
/// file name: each inserted in turn at its place.
pub open spec fn stale_sorted(bs: Seq<(VersionTag, Seq<char>)>, running: VersionTag) -> Seq<
    (VersionTag, Seq<char>),
>
    decreases bs.len(),
{
    if bs.len() == 0 {
        Seq::empty()
    } else {
        let prev = stale_sorted(bs.drop_last(), running);
        if version_lt(running, bs.last().0) {
            prev
        } else {
            insert_sorted(prev, bs.last())
        }
    }
}

/// The files of the builds not newer than `running`, oldest first (by
/// version, then file name).
pub open spec fn stale_builds(bs: Seq<(VersionTag, Seq<char>)>, running: VersionTag) -> Seq<
    Seq<char>,
> {
    build_files(stale_sorted(bs, running))
}

/// No element of `s` sorts before an earlier one.
pub open spec fn is_ascending(s: Seq<(VersionTag, Seq<char>)>) -> bool {
    forall|i: int, j: int| 0 <= i < j < s.len() ==> !build_lt(#[trigger] s[j], #[trigger] s[i])
}

proof fn lemma_insert_pos(s: Seq<(VersionTag, Seq<char>)>, x: (VersionTag, Seq<char>))
    ensures
        0 <= insert_pos(s, x) <= s.len(),
        forall|k: int| 0 <= k < insert_pos(s, x) ==> build_lt(#[trigger] s[k], x),
        insert_pos(s, x) < s.len() ==> !build_lt(s[insert_pos(s, x)], x),
    decreases s.len(),
{
    if s.len() > 0 && build_lt(s[0], x) {
        let t = s.drop_first();
        lemma_insert_pos(t, x);
        assert forall|k: int| 0 <= k < insert_pos(s, x) implies build_lt(#[trigger] s[k], x) by {
            if k > 0 {
                assert(s[k] == t[k - 1]);
            }
        }
    }
}

proof fn lemma_insert_sorted_ascending(s: Seq<(VersionTag, Seq<char>)>, x: (VersionTag, Seq<char>))
    requires
        is_ascending(s),
    ensures
        is_ascending(insert_sorted(s, x)),
{
    lemma_insert_pos(s, x);
    let p = insert_pos(s, x);
    let t = insert_sorted(s, x);
    assert forall|i: int, j: int| 0 <= i < j < t.len() implies !build_lt(#[trigger] t[j], #[trigger] t[i]) by {
        if j < p {
            assert(t[i] == s[i] && t[j] == s[j]);
        } else if j == p {
            assert(t[i] == s[i] && t[j] == x);
            assert(build_lt(s[i], x));
            lemma_build_lt_order(s[i], x, s[i]);
        } else if i < p {
            assert(t[i] == s[i] && t[j] == s[j - 1]);
            if i < j - 1 {
                assert(!build_lt(s[j - 1], s[i]));
            }
        } else if i == p {
            assert(t[j] == s[j - 1]);
            if j - 1 > p {
                assert(!build_lt(s[j - 1], s[p]));
                lemma_build_le_trans(x, s[p], s[j - 1]);
            }
        } else {
            assert(t[i] == s[i - 1] && t[j] == s[j - 1]);
        }
    }
}

/// The stale builds come out in ascending order and are exactly the builds
/// not newer than `running`, each as often as it occurs.
pub proof fn lemma_stale_sorted(bs: Seq<(VersionTag, Seq<char>)>, running: VersionTag)
    ensures
        is_ascending(stale_sorted(bs, running)),
        stale_sorted(bs, running).to_multiset() == not_newer(bs, running).to_multiset(),
    decreases bs.len(),
{
    if bs.len() > 0 {
        let t = bs.drop_last();
        lemma_stale_sorted(t, running);
        let prev = stale_sorted(t, running);
        if !version_lt(running, bs.last().0) {
            lemma_insert_sorted_ascending(prev, bs.last());
            lemma_insert_pos(prev, bs.last());
            vstd::seq_lib::to_multiset_insert(prev, insert_pos(prev, bs.last()), bs.last());
            vstd::seq_lib::to_multiset_build(not_newer(t, running), bs.last());
        }
    }
}

/// The newest build sorts after no build, so none is of greater version.
pub proof fn lemma_newest_is_greatest(bs: Seq<(VersionTag, Seq<char>)>)
    requires
        bs.len() > 0,
    ensures
        0 <= newest_index(bs) < bs.len(),
        forall|j: int| 0 <= j < bs.len() ==> !build_lt(bs[newest_index(bs)], #[trigger] bs[j]),
        forall|j: int| 0 <= j < bs.len() ==> !version_lt(bs[newest_index(bs)].0, #[trigger] bs[j].0),
    decreases bs.len(),
{
    if bs.len() > 1 {
        let t = bs.drop_last();
        lemma_newest_is_greatest(t);
        let k = newest_index(t);
        let last = bs.last();
        assert(bs[k] == t[k]);
        assert forall|j: int| 0 <= j < bs.len() implies !build_lt(bs[newest_index(bs)], #[trigger] bs[j]) by {
            if j < bs.len() - 1 {
                assert(bs[j] == t[j]);
                assert(!build_lt(t[k], t[j]));
                lemma_build_lt_order(bs[k], last, bs[j]);
            } else {
                lemma_build_lt_order(last, last, last);
            }
        }
        assert forall|j: int| 0 <= j < bs.len() implies !version_lt(bs[newest_index(bs)].0, #[trigger] bs[j].0) by {
            assert(!build_lt(bs[newest_index(bs)], bs[j]));
        }
    } else {
        lemma_build_lt_order(bs[0], bs[0], bs[0]);
    }
}

/// A promotion pass hands off to a local build exactly when some local build
/// is newer than the running version, and then to one of greatest version.
pub proof fn lemma_hand_off_iff_newer(bs: Seq<(VersionTag, Seq<char>)>, running: VersionTag)
    ensures
        has_newer_build(bs, running) <==> exists|i: int| 0 <= i < bs.len() && version_lt(running, #[trigger] bs[i].0),
        has_newer_build(bs, running) ==> forall|j: int| 0 <= j < bs.len() ==> !version_lt(bs[newest_index(bs)].0, #[trigger] bs[j].0),
{
    if bs.len() > 0 {
        lemma_newest_is_greatest(bs);
        let k = newest_index(bs);
        if exists|i: int| 0 <= i < bs.len() && version_lt(running, #[trigger] bs[i].0) {
            let i = choose|i: int| 0 <= i < bs.len() && version_lt(running, #[trigger] bs[i].0);
            assert(!version_lt(bs[k].0, bs[i].0));
            lemma_version_order_total(running, bs[i].0, bs[k].0);
            lemma_version_order_total(bs[i].0, bs[k].0, running);
        } else if has_newer_build(bs, running) {
            assert(version_lt(running, bs[k].0));
        }
    }
}

/// Without a newer build, every local build is stale.
pub proof fn lemma_no_newer_all_stale(bs: Seq<(VersionTag, Seq<char>)>, running: VersionTag)
    requires
        !has_newer_build(bs, running),
    ensures
        not_newer(bs, running) == bs,
    decreases bs.len(),
{
    if bs.len() > 0 {
        let t = bs.drop_last();
        lemma_hand_off_iff_newer(t, running);
        lemma_hand_off_iff_newer(bs, running);
        if has_newer_build(t, running) {
            let i = choose|i: int| 0 <= i < t.len() && version_lt(running, #[trigger] t[i].0);
            assert(bs[i] == t[i]);
        }
        lemma_no_newer_all_stale(t, running);
        assert(!version_lt(running, bs[bs.len() - 1].0));
        assert(t.push(bs.last()) =~= bs);
    }
}

/// The file names of the builds `bs`, in order.
pub open spec fn build_files(bs: Seq<(VersionTag, Seq<char>)>) -> Seq<Seq<char>> {
    bs.map_values(|b: (VersionTag, Seq<char>)| b.1)
}

/// The directory entries `files` less those named in `gone`.
pub open spec fn without(files: Seq<Seq<char>>, gone: Seq<Seq<char>>) -> Seq<Seq<char>>
    decreases files.len(),
{
    if files.len() == 0 {
        files
    } else {
        let prev = without(files.drop_last(), gone);
        if gone.contains(files.last()) {
            prev
        } else {
            prev.push(files.last())
        }
    }
}

proof fn lemma_scan_lists_every_build(files: Seq<Seq<char>>, name: Seq<char>, ext: Seq<char>, i: int)
    requires
        0 <= i < files.len(),
        build_version(files[i], name, ext) is Some,
    ensures
        build_files(scan_builds(files, name, ext)).contains(files[i]),
    decreases files.len(),
{
    let t = files.drop_last();
    let prev = scan_builds(t, name, ext);
    if i == files.len() - 1 {
        let bs = scan_builds(files, name, ext);
        assert(bs == prev.push((build_version(files.last(), name, ext)->Some_0, files.last())));
        assert(build_files(bs)[bs.len() - 1] == files[i]);
    } else {
        assert(t[i] == files[i]);
        lemma_scan_lists_every_build(t, name, ext, i);
        let k = choose|k: int| 0 <= k < prev.len() && #[trigger] build_files(prev)[k] == files[i];
        let bs = scan_builds(files, name, ext);
        match build_version(files.last(), name, ext) {
            Some(v) => {
                assert(bs == prev.push((v, files.last())));
                assert(build_files(bs)[k] == files[i]);
            },
            None => {},
        }
    }
}

proof fn lemma_scan_without_builds(
    files: Seq<Seq<char>>,
    gone: Seq<Seq<char>>,
    name: Seq<char>,
    ext: Seq<char>,
)
    requires
        forall|i: int|
            0 <= i < files.len() && (build_version(#[trigger] files[i], name, ext) is Some)
                ==> gone.contains(files[i]),
    ensures
        scan_builds(without(files, gone), name, ext) == Seq::<(VersionTag, Seq<char>)>::empty(),
    decreases files.len(),
{
    if files.len() > 0 {
        let t = files.drop_last();
        assert forall|i: int|
            0 <= i < t.len() && (build_version(#[trigger] t[i], name, ext) is Some) implies gone.contains(
            t[i],
        ) by {
            assert(t[i] == files[i]);
        }
        lemma_scan_without_builds(t, gone, name, ext);
        let prev = without(t, gone);
        if !gone.contains(files.last()) {
            assert(files.last() == files[files.len() - 1]);
            assert(prev.push(files.last()).drop_last() =~= prev);
        }
    }
}

/// Pruning is idempotent: once the stale builds that a pruning pass chose are
/// deleted, the next pass over the remaining entries finds no local build, so
/// it hands off to none and prunes nothing.
pub proof fn lemma_prune_is_idempotent(
    files: Seq<Seq<char>>,
    name: Seq<char>,
    ext: Seq<char>,
    running: VersionTag,
)
    requires
        !has_newer_build(scan_builds(files, name, ext), running),
    ensures
        ({
            let rest = without(files, stale_builds(scan_builds(files, name, ext), running));
            &&& scan_builds(rest, name, ext) == Seq::<(VersionTag, Seq<char>)>::empty()
            &&& !has_newer_build(scan_builds(rest, name, ext), running)
            &&& stale_builds(scan_builds(rest, name, ext), running) == Seq::<Seq<char>>::empty()
        }),
{
    let bs = scan_builds(files, name, ext);
    lemma_no_newer_all_stale(bs, running);
    lemma_stale_sorted(bs, running);
    let sorted = stale_sorted(bs, running);
    let gone = stale_builds(bs, running);
    assert forall|i: int|
        0 <= i < files.len() && (build_version(#[trigger] files[i], name, ext) is Some) implies gone.contains(
        files[i],
    ) by {
        lemma_scan_lists_every_build(files, name, ext, i);
        let k = choose|k: int| 0 <= k < bs.len() && #[trigger] build_files(bs)[k] == files[i];
        assert(bs.contains(bs[k]));
        vstd::seq_lib::to_multiset_contains(bs, bs[k]);
        vstd::seq_lib::to_multiset_contains(sorted, bs[k]);
        let m = choose|m: int| 0 <= m < sorted.len() && sorted[m] == bs[k];
        assert(gone[m] == files[i]);
    }
    lemma_scan_without_builds(files, gone, name, ext);
}

/// Whether build `a` sorts before build `b`: by version, then by file name.
fn build_precedes(a: &LocalBuild, b: &LocalBuild) -> (r: bool)
    ensures
        r == build_lt(a@, b@),
{
    if a.version < b.version {
        true
    } else if a.version == b.version {
        chars_lt(&chars_of(a.file_name.as_str()), &chars_of(b.file_name.as_str()))
    } else {
        false
    }
}

/// `r` prunes every build not newer than `running`, oldest first (by version,
/// then file name).
pub open spec fn prunes_stale(
    r: Result<Promotion, Error>,
    running: VersionTag,
    bs: Seq<(VersionTag, Seq<char>)>,
) -> bool {
    r matches Ok(Promotion::Prune { stale }) && stale@.map_values(|f: String| f@) == stale_builds(
        bs,
        running,
    )
}

/// `r` is what one promotion pass decides for a process running version
/// `running` as the file `exe_file_name`, with local builds `bs` of program
/// `name` on platform `os`:
/// - hand off to the newest build if it is newer than `running`;
/// - else, when the running file's name contains `-` (a versioned build),
///   copy it to the canonical name and hand off to that;
/// - else prune every build not newer than `running`.
pub open spec fn promotion_decided(
    r: Result<Promotion, Error>,
    running: VersionTag,
    name: Seq<char>,
    os: Seq<char>,
    exe_file_name: Seq<char>,
    bs: Seq<(VersionTag, Seq<char>)>,
) -> bool {
    if has_newer_build(bs, running) {
        r matches Ok(Promotion::HandOff { file_name }) && file_name@ == bs[newest_index(bs)].1
    } else if contains_char(exe_file_name, '-') {
        match executable_file_name(name, os) {
            Some(c) => r matches Ok(Promotion::CopySelfAndHandOff { from, to }) && from@
                == exe_file_name && to@ == c,
            None => r matches Err(Error::UnsupportedOS(o)) && o@ == os,
        }
    } else {
        prunes_stale(r, running, bs)
    }
}

/// The decision of one promotion pass, for a process running `running` as the
/// file `exe_file_name`, with the local builds `builds` of program `name` on `os`.
pub fn plan_promotion(
    running: VersionTag,
    name: &str,
    os: &str,
    exe_file_name: &str,
    builds: &Vec<LocalBuild>,
) -> (r: Result<Promotion, Error>)
    ensures
        promotion_decided(r, running, name@, os@, exe_file_name@, builds_view(builds@)),
{
    let ghost bs = builds_view(builds@);
    let n = builds.len();
    if n > 0 {
        let mut k: usize = 0;
        let mut i: usize = 1;
        while i < n
            invariant
                n == builds@.len(),
                bs == builds_view(builds@),
                1 <= i <= n,
                k as int == newest_index(bs.subrange(0, i as int)),
                k < i,
            decreases n - i,
        {
            proof {
                let s = bs.subrange(0, i + 1);
                assert(s.drop_last() =~= bs.subrange(0, i as int));
                assert(s[k as int] == bs[k as int]);
            }
            if build_precedes(&builds[k], &builds[i]) {
                k = i;
            }
            i = i + 1;
        }
        proof {
            assert(bs.subrange(0, n as int) =~= bs);
            assert(bs.subrange(0, 1).len() == 1);
        }
        if running < builds[k].version {
            return Ok(Promotion::HandOff { file_name: builds[k].file_name.clone() });
        }
    }
    if chars_contain(&chars_of(exe_file_name), '-') {
        let to = get_executable_file_name(name, os)?;
        return Ok(Promotion::CopySelfAndHandOff { from: String::from_str(exe_file_name), to });
    }
    let mut sorted: Vec<LocalBuild> = Vec::new();
    let mut i: usize = 0;
    proof {
        assert(bs.subrange(0, 0) =~= Seq::<(VersionTag, Seq<char>)>::empty());
        assert(builds_view(sorted@) =~= Seq::<(VersionTag, Seq<char>)>::empty());
    }
    while i < n
        invariant
            n == builds@.len(),
            bs == builds_view(builds@),
            i <= n,
            builds_view(sorted@) == stale_sorted(bs.subrange(0, i as int), running),
        decreases n - i,
    {
        proof {
            let s = bs.subrange(0, i + 1);
            assert(s.drop_last() =~= bs.subrange(0, i as int));
        }
        if !(running < builds[i].version) {
            let ghost sv = builds_view(sorted@);
            let ghost x = bs[i as int];
            let mut j: usize = 0;
            let mut go = true;
            proof {
                assert(sv.subrange(0, sv.len() as int) =~= sv);
            }
            while go && j < sorted.len()
                invariant
                    sv == builds_view(sorted@),
                    n == builds@.len(),
                    i < n,
                    x == builds[i as int]@,
                    j <= sorted@.len(),
                    insert_pos(sv, x) == j + insert_pos(sv.subrange(j as int, sv.len() as int), x),
                    !go ==> j < sv.len() && !build_lt(sv[j as int], x),
                decreases sorted@.len() - j + if go { 1int } else { 0int },
            {
                let ghost rest = sv.subrange(j as int, sv.len() as int);
                assert(rest[0] == sv[j as int]);
                if build_precedes(&sorted[j], &builds[i]) {
                    assert(rest.drop_first() =~= sv.subrange(j + 1, sv.len() as int));
                    j = j + 1;
                } else {
                    go = false;
                }
            }
            proof {
                let rest = sv.subrange(j as int, sv.len() as int);
                if go {
                    assert(rest.len() == 0);
                } else {
                    assert(rest[0] == sv[j as int]);
                }
                assert(insert_pos(sv, x) == j);
            }
            let b = LocalBuild { version: builds[i].version, file_name: builds[i].file_name.clone() };
            sorted.insert(j, b);
            proof {
                assert(builds_view(sorted@) =~= sv.insert(j as int, x));
            }
        }
        i = i + 1;
    }
    proof {
        assert(bs.subrange(0, n as int) =~= bs);
    }
    let mut stale: Vec<String> = Vec::new();
    let mut m: usize = 0;
    let ghost sv = builds_view(sorted@);
    while m < sorted.len()
        invariant
            sv == builds_view(sorted@),
            sv == stale_sorted(bs, running),
            m <= sorted@.len(),
            stale@.map_values(|f: String| f@) == build_files(sv.subrange(0, m as int)),
        decreases sorted@.len() - m,
    {
        let ghost before = stale@;
        let f = sorted[m].file_name.clone();
        assert(sv[m as int] == sorted@[m as int]@);
        stale.push(f);
        m = m + 1;
        proof {
            assert(stale@ == before.push(f));
            assert(sv.subrange(0, m as int) =~= sv.subrange(0, m - 1).push(sv[m - 1]));
            assert(stale@.map_values(|f: String| f@) =~= before.map_values(|f: String| f@).push(f@));
            assert(build_files(sv.subrange(0, m as int)) =~= build_files(sv.subrange(0, m - 1)).push(
                sv[m - 1].1,
            ));
        }
    }
    proof {
        assert(sv.subrange(0, m as int) =~= sv);
    }
    Ok(Promotion::Prune { stale })
}

} // verus!
