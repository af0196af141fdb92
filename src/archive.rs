use vstd::prelude::*;

use crate::text::chars_of;
use crate::Error;

verus! {

/// A path separator inside an archive entry's name.
pub open spec fn is_sep(c: char) -> bool {
    c == '/' || c == '\\'
}

/// The segments of an entry name between separators, empty ones included.
pub open spec fn path_segments(s: Seq<char>) -> Seq<Seq<char>>
    decreases s.len(),
{
    if s.len() == 0 {
        seq![Seq::<char>::empty()]
    } else {
        let prev = path_segments(s.drop_last());
        if is_sep(s.last()) {
            prev.push(Seq::<char>::empty())
        } else {
            prev.update(prev.len() - 1, prev.last().push(s.last()))
        }
    }
}

/// How a segment moves the depth below the root: `..` goes up one level, an
/// empty segment or `.` stays, any other name goes down one.
pub open spec fn segment_step(seg: Seq<char>) -> int {
    if seg == seq!['.', '.'] {
        -1
    } else if seg.len() == 0 || seg == seq!['.'] {
        0
    } else {
        1
    }
}

/// Depth below the root after walking `segs`.
pub open spec fn walk_depth(segs: Seq<Seq<char>>) -> int
    decreases segs.len(),
{
    if segs.len() == 0 {
        0
    } else {
        walk_depth(segs.drop_last()) + segment_step(segs.last())
    }
}

/// Walking `segs` from the root never climbs above it.
pub open spec fn stays_below_root(segs: Seq<Seq<char>>) -> bool
    decreases segs.len(),
{
    if segs.len() == 0 {
        true
    } else {
        stays_below_root(segs.drop_last()) && walk_depth(segs) >= 0
    }
}

/// The name begins with a drive prefix such as `C:`.
pub open spec fn has_drive_prefix(name: Seq<char>) -> bool {
    name.len() >= 2 && name[1] == ':' && (('a' <= name[0] && name[0] <= 'z') || ('A' <= name[0]
        && name[0] <= 'Z'))
}

/// The entry name denotes a relative path that resolves inside the extraction
/// root: no NUL, no drive or root prefix, and no `..` that climbs above the root.
pub open spec fn is_enclosed(name: Seq<char>) -> bool {
    &&& forall|i: int| 0 <= i < name.len() ==> #[trigger] name[i] != '\0'
    &&& !(name.len() > 0 && is_sep(name[0]))
    &&& !has_drive_prefix(name)
    &&& stays_below_root(path_segments(name))
}

/// What to do with one archive entry.
pub enum EntryAction {
    /// A directory entry: nothing to write; directories come with the files.
    Skip,
    /// A file to write at its name, relative to the extraction root.
    Extract,
}

/// The segment kind that decides its step: 0 empty, 1 `.`, 2 `..`, 3 a name.
spec fn seg_kind(seg: Seq<char>) -> int {
    if seg.len() == 0 {
        0
    } else if seg == seq!['.'] {
        1
    } else if seg == seq!['.', '.'] {
        2
    } else {
        3
    }
}

proof fn lemma_seg_kind_push(seg: Seq<char>, c: char)
    ensures
        seg_kind(seg.push(c)) == if seg_kind(seg) == 0 && c == '.' {
            1
        } else if seg_kind(seg) == 1 && c == '.' {
            2
        } else {
            3int
        },
{
    let t = seg.push(c);
    if seg_kind(seg) == 0 {
        if c == '.' {
            assert(t =~= seq!['.']);
        } else {
            assert(t != seq!['.']) by {
                assert(t[0] != seq!['.'][0]);
            }
        }
    } else if seg_kind(seg) == 1 {
        if c == '.' {
            assert(t =~= seq!['.', '.']);
        } else {
            assert(t[1] != seq!['.', '.'][1]);
        }
    } else if seg_kind(seg) == 2 {
        assert(t.len() == 3);
    } else {
        if t == seq!['.'] {
            assert(seg.len() == 0);
        }
        if t == seq!['.', '.'] {
            assert(seg =~= t.drop_last());
            assert(seg =~= seq!['.']);
        }
    }
}

/// Decides on the archive entry named `name`: rejected when its path would
/// resolve outside the extraction root, skipped when it is a directory.
pub fn check_entry(name: &str, is_dir: bool) -> (r: Result<EntryAction, Error>)
    ensures
        !is_enclosed(name@) ==> (r matches Err(Error::UnsafeArchiveEntry(n)) && n@ == name@),
        is_enclosed(name@) && is_dir ==> r matches Ok(EntryAction::Skip),
        is_enclosed(name@) && !is_dir ==> r matches Ok(EntryAction::Extract),
{
    let s = chars_of(name);
    let n = s.len();
    let mut clean = true;
    let mut i: usize = 0;
    while i < n
        invariant
            n == s@.len(),
            s@ == name@,
            i <= n,
            clean == forall|j: int| 0 <= j < i ==> #[trigger] s@[j] != '\0',
        decreases n - i,
    {
        if s[i] == '\0' {
            clean = false;
        }
        i = i + 1;
    }
    let drive = n >= 2 && s[1] == ':' && (('a' <= s[0] && s[0] <= 'z') || ('A' <= s[0] && s[0]
        <= 'Z'));
    if !clean || drive || (n > 0 && (s[0] == '/' || s[0] == '\\')) {
        return Err(Error::UnsafeArchiveEntry(String::from_str(name)));
    }
    let mut depth: usize = 0;
    let mut above = false;
    let mut kind: u8 = 0;
    i = 0;
    proof {
        assert(s@.subrange(0, 0) =~= Seq::<char>::empty());
    }
    while i < n
        invariant
            n == s@.len(),
            i <= n,
            ({
                let p = path_segments(s@.subrange(0, i as int));
                let done = p.drop_last();
                &&& p.len() >= 1
                &&& kind as int == seg_kind(p.last())
                &&& !above ==> depth as int == walk_depth(done)
                &&& above == !stays_below_root(done)
            }),
            depth <= i,
        decreases n - i,
    {
        let ghost p = path_segments(s@.subrange(0, i as int));
        proof {
            assert(s@.subrange(0, i + 1).drop_last() =~= s@.subrange(0, i as int));
        }
        let c = s[i];
        if c == '/' || c == '\\' {
            proof {
                let q = path_segments(s@.subrange(0, i + 1));
                assert(q.drop_last() =~= p);
                assert(p.drop_last().push(p.last()) =~= p);
            }
            if !above {
                if kind == 2 {
                    if depth == 0 {
                        above = true;
                    } else {
                        depth = depth - 1;
                    }
                } else if kind == 3 {
                    depth = depth + 1;
                }
            }
            kind = 0;
        } else {
            proof {
                lemma_seg_kind_push(p.last(), c);
                let q = path_segments(s@.subrange(0, i + 1));
                assert(q.drop_last() =~= p.drop_last());
            }
            if kind == 0 && c == '.' {
                kind = 1;
            } else if kind == 1 && c == '.' {
                kind = 2;
            } else {
                kind = 3;
            }
        }
        i = i + 1;
    }
    let ghost p = path_segments(s@);
    proof {
        assert(s@.subrange(0, n as int) =~= s@);
        assert(p.drop_last().push(p.last()) =~= p);
    }
    if !above && kind == 2 && depth == 0 {
        above = true;
    }
    if above {
        return Err(Error::UnsafeArchiveEntry(String::from_str(name)));
    }
    if is_dir {
        Ok(EntryAction::Skip)
    } else {
        Ok(EntryAction::Extract)
    }
}

} // verus!
