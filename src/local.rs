use vstd::prelude::*;

use crate::data::{parse_version, VersionTag};
use crate::text::{
    after_last, chars_after_last, chars_eq, chars_have_prefix, chars_have_suffix, chars_of,
    chars_take, has_prefix, has_suffix,
};
use crate::Error;

verus! {

/// The executable extension of the platform named `os`.
pub open spec fn exe_extension(os: Seq<char>) -> Seq<char> {
    if os == "windows"@ {
        ".exe"@
    } else {
        Seq::<char>::empty()
    }
}

/// The canonical executable's file name for program `name` on platform `os`;
/// `None` where the platform is not supported.
pub open spec fn executable_file_name(name: Seq<char>, os: Seq<char>) -> Option<Seq<char>> {
    if os == "windows"@ {
        Some(name + ".exe"@)
    } else if os == "unix"@ || os == "linux"@ {
        Some(name)
    } else {
        None
    }
}

/// `"<name>-"`: how every versioned build of `name` begins.
pub open spec fn build_prefix(name: Seq<char>) -> Seq<char> {
    name.push('-')
}

/// The file name has the shape of a build of `name`: it starts with `"<name>-"`.
pub open spec fn is_build_name(file_name: Seq<char>, name: Seq<char>) -> bool {
    has_prefix(file_name, build_prefix(name))
}

/// The version that the file `file_name` carries as a build of `name`: the text
/// after its last `-`, less the executable extension `ext`, read as a version.
pub open spec fn build_version(file_name: Seq<char>, name: Seq<char>, ext: Seq<char>) -> Option<
    VersionTag,
> {
    if is_build_name(file_name, name) {
        let t = after_last(file_name, '-');
        if has_suffix(t, ext) {
            parse_version(t.subrange(0, t.len() - ext.len()))
        } else {
            parse_version(t)
        }
    } else {
        None
    }
}

/// A versioned build found beside the running program.
pub struct LocalBuild {
    pub version: VersionTag,
    pub file_name: String,
}

impl View for LocalBuild {
    type V = (VersionTag, Seq<char>);

    open spec fn view(&self) -> (VersionTag, Seq<char>) {
        (self.version, self.file_name@)
    }
}

pub open spec fn builds_view(bs: Seq<LocalBuild>) -> Seq<(VersionTag, Seq<char>)> {
    bs.map_values(|b: LocalBuild| b@)
}

pub open spec fn names_view(fs: Seq<String>) -> Seq<Seq<char>> {
    fs.map_values(|f: String| f@)
}

/// The builds of `name` among the directory entries `files`, in their order.
pub open spec fn scan_builds(files: Seq<Seq<char>>, name: Seq<char>, ext: Seq<char>) -> Seq<
    (VersionTag, Seq<char>),
>
    decreases files.len(),
{
    if files.len() == 0 {
        Seq::empty()
    } else {
        let prev = scan_builds(files.drop_last(), name, ext);
        match build_version(files.last(), name, ext) {
            Some(v) => prev.push((v, files.last())),
            None => prev,
        }
    }
}

/// Whether `os` is `"windows"`.
fn is_windows(os: &str) -> (r: bool)
    ensures
        r == (os@ == "windows"@),
{
    chars_eq(&chars_of(os), &chars_of("windows"))
}

/// The executable extension of the platform named `os`.
pub fn executable_extension(os: &str) -> (r: &'static str)
    ensures
        r@ == exe_extension(os@),
{
    if is_windows(os) {
        ".exe"
    } else {
        proof {
            reveal_strlit("");
        }
        ""
    }
}

/// The canonical executable's file name for program `name` on platform `os`.
pub fn get_executable_file_name(name: &str, os: &str) -> (r: Result<String, Error>)
    ensures
        match executable_file_name(name@, os@) {
            Some(f) => r is Ok && r->Ok_0@ == f,
            None => r matches Err(Error::UnsupportedOS(o)) && o@ == os@,
        },
{
    let o = chars_of(os);
    if is_windows(os) {
        Ok(String::from_str(name).concat(".exe"))
    } else if chars_eq(&o, &chars_of("unix")) || chars_eq(&o, &chars_of("linux")) {
        Ok(String::from_str(name))
    } else {
        Err(Error::UnsupportedOS(String::from_str(os)))
    }
}

/// The version that the file `file_name` carries as a build of `name` on `os`.
pub fn local_build_version(file_name: &str, name: &str, os: &str) -> (r: Option<VersionTag>)
    ensures
        r == build_version(file_name@, name@, exe_extension(os@)),
{
    let f = chars_of(file_name);
    let mut prefix = chars_of(name);
    prefix.push('-');
    if !chars_have_prefix(&f, &prefix) {
        return None;
    }
    let t = chars_after_last(&f, '-');
    let ext = chars_of(executable_extension(os));
    let body = if chars_have_suffix(&t, &ext) {
        chars_take(&t, t.len() - ext.len())
    } else {
        t
    };
    match VersionTag::parse_chars(&body) {
        Ok(v) => Some(v),
        Err(_) => None,
    }
}

/// The versioned builds of `name` among the directory entries `files`, in the
/// order of `files`; other entries are skipped.
pub fn scan_local_builds(files: &Vec<String>, name: &str, os: &str) -> (r: Vec<LocalBuild>)
    ensures
        builds_view(r@) == scan_builds(names_view(files@), name@, exe_extension(os@)),
{
    let ghost ext = exe_extension(os@);
    let mut r: Vec<LocalBuild> = Vec::new();
    let mut i: usize = 0;
    proof {
        assert(names_view(files@).subrange(0, 0) =~= Seq::<Seq<char>>::empty());
        assert(builds_view(r@) =~= Seq::<(VersionTag, Seq<char>)>::empty());
    }
    while i < files.len()
        invariant
            i <= files@.len(),
            builds_view(r@) == scan_builds(names_view(files@).subrange(0, i as int), name@, ext),
            ext == exe_extension(os@),
        decreases files@.len() - i,
    {
        let ghost before = r@;
        let ghost fs = names_view(files@).subrange(0, i + 1);
        proof {
            assert(fs.drop_last() =~= names_view(files@).subrange(0, i as int));
            assert(fs.last() == files@[i as int]@);
        }
        match local_build_version(files[i].as_str(), name, os) {
            Some(v) => {
                r.push(LocalBuild { version: v, file_name: files[i].clone() });
                proof {
                    assert(builds_view(r@) =~= builds_view(before).push((v, fs.last())));
                }
            },
            None => {},
        }
        i = i + 1;
    }
    proof {
        assert(names_view(files@).subrange(0, files@.len() as int) =~= names_view(files@));
    }
    r
}

} // verus!
