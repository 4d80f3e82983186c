//! The layout of a session on disk.
//!
//! A session lives in `<root>/<id>/`. The recorded clips are
//! `raw/<stream>.mp4`; every stage keeps its artifacts under a directory of
//! its own, one subdirectory per stream, one file per frame, named by the
//! number of the frame: `frames/<stream>/<index>.png` and so on. Paths are
//! written with `/`.

use crate::text::{chars_of, parse_number, parsed_number, push_char, push_decimal, decimal_digits};
use vstd::prelude::*;
use vstd::string::*;

verus! {

/// The place of the last `c` in `s`, if there is one.
pub open spec fn last_index_of(s: Seq<char>, c: char) -> Option<int>
    decreases s.len(),
{
    if s.len() == 0 {
        None
    } else if s.last() == c {
        Some(s.len() - 1)
    } else {
        last_index_of(s.drop_last(), c)
    }
}

/// The last component of a path: what follows its last `/`.
pub open spec fn file_name(path: Seq<char>) -> Seq<char> {
    match last_index_of(path, '/') {
        Some(i) => path.skip(i + 1),
        None => path,
    }
}

/// Where the extension of a file name starts: at its last `.`, unless that
/// is its first character.
pub open spec fn extension_dot(name: Seq<char>) -> Option<int> {
    match last_index_of(name, '.') {
        Some(i) => if i > 0 {
            Some(i)
        } else {
            None
        },
        None => None,
    }
}

/// The file name of a path without its extension.
pub open spec fn file_stem(path: Seq<char>) -> Seq<char> {
    let name = file_name(path);
    match extension_dot(name) {
        Some(i) => name.take(i),
        None => name,
    }
}

/// The extension of the file name of a path, without the `.`.
pub open spec fn extension(path: Seq<char>) -> Option<Seq<char>> {
    let name = file_name(path);
    match extension_dot(name) {
        Some(i) => Some(name.skip(i + 1)),
        None => None,
    }
}

/// The number of the frame that a path names: its file stem, read as a
/// number.
pub open spec fn frame_index(path: Seq<char>) -> Option<usize> {
    parsed_number(file_stem(path))
}

/// `name` inside the directory `directory`.
pub open spec fn joined(directory: Seq<char>, name: Seq<char>) -> Seq<char> {
    directory.push('/') + name
}

/// The directory or file of a stream inside `directory`, named by the
/// number of the stream and ending in `suffix`.
pub open spec fn numbered(directory: Seq<char>, number: usize, suffix: Seq<char>) -> Seq<char> {
    joined(directory, decimal_digits(number as nat) + suffix)
}

/// The artifact `<directory>/<stem>.<extension>`.
pub open spec fn artifact(directory: Seq<char>, stem: Seq<char>, extension: Seq<char>) -> Seq<
    char,
> {
    joined(directory, stem.push('.') + extension)
}

fn find_last(chars: &Vec<char>, from: usize, c: char) -> (found: Option<usize>)
    requires
        from <= chars@.len(),
    ensures
        match found {
            Some(i) => from <= i < chars@.len() && last_index_of(chars@.skip(from as int), c)
                == Some(i - from),
            None => last_index_of(chars@.skip(from as int), c) is None,
        },
{
    let ghost s = chars@.skip(from as int);
    let mut i: usize = chars.len();
    proof {
        assert(s.take(i - from) =~= s);
    }
    while i > from
        invariant
            from <= i <= chars@.len(),
            s == chars@.skip(from as int),
            last_index_of(s, c) == last_index_of(s.take(i - from), c),
        decreases i,
    {
        proof {
            assert(s.take(i - from).last() == chars@[i - 1]);
            assert(s.take(i - from).drop_last() =~= s.take(i - from - 1));
        }
        if chars[i - 1] == c {
            return Some(i - 1);
        }
        i = i - 1;
    }
    proof {
        assert(s.take(0).len() == 0);
    }
    None
}

fn collect(chars: &Vec<char>, from: usize, to: usize) -> (s: String)
    requires
        from <= to <= chars@.len(),
    ensures
        s@ == chars@.subrange(from as int, to as int),
{
    let mut s = String::new();
    let mut i: usize = from;
    while i < to
        invariant
            from <= i <= to <= chars@.len(),
            s@ == chars@.subrange(from as int, i as int),
        decreases to - i,
    {
        push_char(&mut s, chars[i]);
        proof {
            assert(chars@.subrange(from as int, i as int).push(chars@[i as int])
                =~= chars@.subrange(from as int, i + 1));
        }
        i = i + 1;
    }
    s
}

/// Where the file name starts in `chars`, and where its stem ends.
fn name_bounds(chars: &Vec<char>) -> (bounds: (usize, usize, bool))
    ensures
        bounds.0 <= bounds.1 <= chars@.len(),
        file_name(chars@) == chars@.skip(bounds.0 as int),
        file_stem(chars@) == chars@.subrange(bounds.0 as int, bounds.1 as int),
        bounds.2 <==> extension(chars@) is Some,
        bounds.2 ==> bounds.1 < chars@.len() && extension(chars@) == Some(
            chars@.skip(bounds.1 + 1),
        ),
{
    let len = chars.len();
    let start: usize = match find_last(chars, 0, '/') {
        Some(i) => i + 1,
        None => 0,
    };
    proof {
        assert(chars@.skip(0) =~= chars@);
    }
    let ghost name = chars@.skip(start as int);
    match find_last(chars, start, '.') {
        Some(i) => {
            if i > start {
                proof {
                    assert(name.take(i - start) =~= chars@.subrange(start as int, i as int));
                    assert(name.skip(i - start + 1) =~= chars@.skip(i + 1));
                }
                (start, i, true)
            } else {
                proof {
                    assert(name =~= chars@.subrange(start as int, chars@.len() as int));
                }
                (start, chars.len(), false)
            }
        },
        None => {
            proof {
                assert(name =~= chars@.subrange(start as int, chars@.len() as int));
            }
            (start, chars.len(), false)
        },
    }
}

/// The file name of `path` without its extension.
pub fn stem_of(path: &str) -> (stem: String)
    ensures
        stem@ == file_stem(path@),
{
    let chars = chars_of(path);
    let bounds = name_bounds(&chars);
    collect(&chars, bounds.0, bounds.1)
}

/// The extension of `path`, if its file name has one.
pub fn extension_of(path: &str) -> (ext: Option<String>)
    ensures
        match ext {
            Some(e) => extension(path@) == Some(e@),
            None => extension(path@) is None,
        },
{
    let chars = chars_of(path);
    let bounds = name_bounds(&chars);
    if bounds.2 {
        let e = collect(&chars, bounds.1 + 1, chars.len());
        proof {
            assert(chars@.skip(bounds.1 + 1) =~= chars@.subrange(
                bounds.1 + 1,
                chars@.len() as int,
            ));
        }
        Some(e)
    } else {
        None
    }
}

/// Whether the file name of `path` ends in `.` and `wanted`.
pub fn has_extension(path: &str, wanted: &str) -> (has: bool)
    ensures
        has <==> extension(path@) == Some(wanted@),
{
    match extension_of(path) {
        Some(e) => {
            let w = String::from_str(wanted);
            e == w
        },
        None => false,
    }
}

/// The number of the frame that `path` names, if its file stem is one.
pub fn frame_index_of(path: &str) -> (index: Option<usize>)
    ensures
        index == frame_index(path@),
{
    let stem = stem_of(path);
    parse_number(stem.as_str())
}

/// The path of `name` inside `directory`.
pub fn join(directory: &str, name: &str) -> (path: String)
    ensures
        path@ == joined(directory@, name@),
{
    let mut path = String::from_str(directory);
    push_char(&mut path, '/');
    path.append(name);
    path
}

/// The path inside `directory` that is named by `number` and ends in
/// `suffix`: the directory of a stream, or its recorded clip.
pub fn join_numbered(directory: &str, number: usize, suffix: &str) -> (path: String)
    ensures
        path@ == numbered(directory@, number, suffix@),
{
    let mut path = String::from_str(directory);
    push_char(&mut path, '/');
    push_decimal(&mut path, number);
    path.append(suffix);
    assert(path@ =~= numbered(directory@, number, suffix@));
    path
}

/// The path of the artifact `<directory>/<stem>.<extension>`.
pub fn artifact_path(directory: &str, stem: &str, extension: &str) -> (path: String)
    ensures
        path@ == artifact(directory@, stem@, extension@),
{
    let mut path = String::from_str(directory);
    push_char(&mut path, '/');
    path.append(stem);
    push_char(&mut path, '.');
    path.append(extension);
    assert(path@ =~= artifact(directory@, stem@, extension@));
    path
}

} // verus!
