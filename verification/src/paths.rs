//! File names and paths, as text.
use vstd::prelude::*;
use crate::jav::util::{file_name, sanitize_filename};
use crate::text::{
    copy_range, ends, ends_with, from_chars, join2, join3, same, to_chars,
};

verus! {

/// The path of `name` in the directory `dir`. A name that is a path from the
/// root stands for itself.
pub open spec fn path_in(dir: Seq<char>, name: Seq<char>) -> Seq<char> {
    if name.len() > 0 && name[0] == '/' {
        name
    } else if dir.len() == 0 {
        name
    } else if dir.last() == '/' {
        dir + name
    } else {
        dir + "/"@ + name
    }
}

/// The path of `name` in the directory `dir`.
pub fn join_path(dir: &str, name: &str) -> (r: String)
    ensures
        r@ == path_in(dir@, name@),
{
    let d = to_chars(dir);
    let n = to_chars(name);
    if n.len() > 0 && n[0] == '/' {
        return from_chars(n.as_slice());
    }
    if d.len() == 0 {
        return from_chars(n.as_slice());
    }
    if d[d.len() - 1] == '/' {
        join2(dir, name)
    } else {
        join3(dir, "/", name)
    }
}

/// The name of the file that a video becomes.
pub open spec fn video_name(id: Seq<char>, title: Seq<char>) -> Seq<char> {
    id + " - "@ + file_name(title) + ".mp4"@
}

/// Where a video goes.
pub open spec fn video_path(dir: Seq<char>, id: Seq<char>, title: Seq<char>) -> Seq<char> {
    path_in(dir, video_name(id, title))
}

/// Where a video goes: below `save_path`, under its id and its title.
pub fn output_path(save_path: &str, id: &str, title: &str) -> (r: String)
    ensures
        r@ == video_path(save_path@, id@, title@),
{
    let safe = sanitize_filename(title);
    let head = join3(id, " - ", safe.as_str());
    join_path(save_path, join2(head.as_str(), ".mp4").as_str())
}

/// Where the unfinished file goes: beside the finished one.
pub fn part_path(final_path: &str) -> (r: String)
    ensures
        r@ == final_path@ + ".part"@,
{
    join2(final_path, ".part")
}

/// Where the segments of a video are kept until they are merged.
pub fn segment_dir(temp_path: &str, id: &str) -> (r: String)
    ensures
        r@ == path_in(temp_path@, "temp_"@ + id@),
{
    join_path(temp_path, join2("temp_", id).as_str())
}

/// Where the last part of a path ends: separators behind it do not count, and
/// neither do parts that stand for the directory they are in.
pub open spec fn name_end(path: Seq<char>) -> int
    decreases path.len(),
{
    let n = path.len();
    if n > 0 && path[n - 1] == '/' {
        name_end(path.take(n - 1))
    } else if n > 1 && path[n - 1] == '.' && path[n - 2] == '/' {
        name_end(path.take(n - 2))
    } else {
        n as int
    }
}

/// Where the part of a path that ends at `end` begins: behind the separator.
pub open spec fn name_begin(path: Seq<char>, end: int) -> int
    decreases end,
{
    if end <= 0 {
        0
    } else if path[end - 1] == '/' {
        end
    } else {
        name_begin(path, end - 1)
    }
}

/// Where the extension of the name in `begin..end` begins, with its dot; `end`
/// where it has none. A dot in front of a name begins no extension.
pub open spec fn extension_at(path: Seq<char>, begin: int, end: int, i: int) -> int
    decreases i - begin,
{
    if i <= begin + 1 {
        end
    } else if path[i - 1] == '.' {
        i - 1
    } else {
        extension_at(path, begin, end, i - 1)
    }
}

/// Whether a path ends in the name of a file.
pub open spec fn names_file(path: Seq<char>) -> bool {
    let end = name_end(path);
    let name = path.subrange(name_begin(path, end), end);
    name.len() > 0 && name != "."@ && name != ".."@
}

/// A path whose file has that extension in place of its own, or behind its name
/// where it has none; one that names no file stays as it is.
pub open spec fn with_extension(path: Seq<char>, extension: Seq<char>) -> Seq<char> {
    let end = name_end(path);
    if names_file(path) {
        path.take(extension_at(path, name_begin(path, end), end, end)) + "."@ + extension
    } else {
        path
    }
}

fn find_name_end(v: &[char]) -> (r: usize)
    ensures
        r == name_end(v@),
        r <= v@.len(),
{
    let mut n: usize = v.len();
    assert(v@.take(n as int) =~= v@);
    loop
        invariant
            n <= v@.len(),
            name_end(v@) == name_end(v@.take(n as int)),
        decreases n,
    {
        if n > 0 && v[n - 1] == '/' {
            assert(v@.take(n as int).take(n - 1) =~= v@.take(n - 1));
            n -= 1;
        } else if n > 1 && v[n - 1] == '.' && v[n - 2] == '/' {
            assert(v@.take(n as int).take(n - 2) =~= v@.take(n - 2));
            n -= 2;
        } else {
            return n;
        }
    }
}

/// The other place where the output of an earlier run may be: the transport
/// stream that is written where nothing can remux it.
pub fn stream_path(final_path: &str) -> (r: String)
    ensures
        r@ == with_extension(final_path@, "ts"@),
{
    let v = to_chars(final_path);
    let end = find_name_end(v.as_slice());
    let mut begin: usize = end;
    while begin > 0 && v[begin - 1] != '/'
        invariant
            begin <= end <= v@.len(),
            name_begin(v@, end as int) == name_begin(v@, begin as int),
        decreases begin,
    {
        begin -= 1;
    }
    let name = copy_range(v.as_slice(), begin, end);
    assert(name@ =~= v@.subrange(begin as int, end as int));
    if name.len() == 0 || same(name.as_slice(), to_chars(".").as_slice()) || same(
        name.as_slice(),
        to_chars("..").as_slice(),
    ) {
        return final_path.to_owned();
    }
    let mut at: usize = end;
    while at > begin + 1 && v[at - 1] != '.'
        invariant
            begin < end <= v@.len(),
            begin < at <= end,
            extension_at(v@, begin as int, end as int, end as int) == extension_at(
                v@,
                begin as int,
                end as int,
                at as int,
            ),
        decreases at,
    {
        at -= 1;
    }
    let stem: usize = if at > begin + 1 {
        at - 1
    } else {
        end
    };
    let head = copy_range(v.as_slice(), 0, stem);
    assert(head@ =~= final_path@.take(stem as int));
    join3(from_chars(head.as_slice()).as_str(), ".", "ts")
}

/// Whether a file name is that of an unfinished download of a video.
pub fn is_partial_of(name: &str, id: &str) -> (r: bool)
    ensures
        r == (crate::text::starts_with(name@, id@ + " - "@) && ends_with(name@, ".mp4.part"@)),
{
    let n = to_chars(name);
    let prefix = to_chars(join2(id, " - ").as_str());
    crate::text::begins(n.as_slice(), prefix.as_slice()) && ends(
        n.as_slice(),
        to_chars(".mp4.part").as_slice(),
    )
}

/// Two videos with different ids never share an output, whatever their titles,
/// as long as the ids hold no space.
pub proof fn law_outputs_are_apart(a: Seq<char>, b: Seq<char>, s: Seq<char>, t: Seq<char>)
    requires
        a != b,
        !a.contains(' '),
        !b.contains(' '),
    ensures
        video_name(a, s) != video_name(b, t),
{
    reveal_strlit(" - ");
    let x = video_name(a, s);
    let y = video_name(b, t);
    if x == y {
        assert(forall|i: int| 0 <= i < a.len() ==> x[i] == a[i]);
        assert(forall|i: int| 0 <= i < b.len() ==> y[i] == b[i]);
        assert(x[a.len() as int] == ' ') by {
            assert(x[a.len() as int] == " - "@[0]);
        }
        assert(y[b.len() as int] == ' ') by {
            assert(y[b.len() as int] == " - "@[0]);
        }
        if a.len() < b.len() {
            assert(b[a.len() as int] == ' ');
            assert(b.contains(' '));
        } else if b.len() < a.len() {
            assert(a[b.len() as int] == ' ');
            assert(a.contains(' '));
        } else {
            assert(a =~= b);
        }
    }
}

} // verus!
