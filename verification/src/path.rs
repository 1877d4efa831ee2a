//! File names of numbered frames.
//!
//! Paths are written with `/`. As usual a path is a row of components; empty
//! ones and `.` do not count, except for a `.` at the very beginning.

use vstd::prelude::*;
use vstd::string::*;
use crate::text::{padded_decimal_text, same_text};
#[allow(unused_imports)]
use crate::text::{all_digits, decimal_value, law_decimal_round_trip, padded_decimal};

verus! {

/// How much of a path comes before its first ordinary component: a leading
/// `/`, or a leading `.` that is a component of its own.
pub open spec fn root_len(p: Seq<char>) -> nat {
    if p.len() > 0 && p[0] == '/' {
        1
    } else if p.len() > 0 && p[0] == '.' && (p.len() == 1 || p[1] == '/') {
        1
    } else {
        0
    }
}

/// Where the last component starts.
pub open spec fn last_start(p: Seq<char>, root: nat) -> int
    decreases p.len(),
{
    if p.len() <= root {
        root as int
    } else if p.last() == '/' {
        p.len() as int
    } else {
        last_start(p.drop_last(), root)
    }
}

/// Where the path without its last component, and without the `/` before it,
/// ends.
pub open spec fn last_cut(p: Seq<char>, root: nat) -> int {
    let start = last_start(p, root);
    if start > root {
        start - 1
    } else {
        root as int
    }
}

/// The path without the components at its end that do not count.
pub open spec fn trimmed(p: Seq<char>, root: nat) -> Seq<char>
    decreases p.len(),
    via trimmed_decreases
{
    let last = p.skip(last_start(p, root));
    if p.len() > root && (last.len() == 0 || last == seq!['.']) {
        trimmed(p.take(last_cut(p, root)), root)
    } else {
        p
    }
}

#[via_fn]
proof fn trimmed_decreases(p: Seq<char>, root: nat) {
    if p.len() > root {
        lemma_last_start(p, root);
    }
}

proof fn lemma_last_start(p: Seq<char>, root: nat)
    requires
        root <= p.len(),
    ensures
        root <= last_start(p, root) <= p.len(),
        root <= last_cut(p, root) <= p.len(),
        p.len() > root ==> last_cut(p, root) < p.len(),
    decreases p.len(),
{
    if p.len() > root && p.last() != '/' {
        lemma_last_start(p.drop_last(), root);
    }
}

/// The last component of a path, if it names a file.
pub open spec fn file_name(p: Seq<char>) -> Option<Seq<char>> {
    let root = root_len(p);
    let t = trimmed(p, root);
    let last = t.skip(last_start(t, root));
    if t.len() <= root || last == seq!['.', '.'] {
        None
    } else {
        Some(last)
    }
}

/// What a file name is put behind: the path without the file name it has, or
/// all of it if it has none.
pub open spec fn directory(p: Seq<char>) -> Seq<char> {
    let root = root_len(p);
    let t = trimmed(p, root);
    if file_name(p) is Some {
        trimmed(t.take(last_cut(t, root)), root)
    } else {
        p
    }
}

/// `name` behind `dir`.
pub open spec fn joined(dir: Seq<char>, name: Seq<char>) -> Seq<char> {
    if dir.len() == 0 || dir.last() == '/' {
        dir + name
    } else {
        dir + seq!['/'] + name
    }
}

/// Where the extension of a file name starts to be split off: its last dot,
/// unless that is its first character.
pub open spec fn extension_dot(name: Seq<char>) -> Option<int> {
    match name.index_of_last('.') {
        Some(d) => if d > 0 {
            Some(d)
        } else {
            None
        },
        None => None,
    }
}

/// The file name before its extension; `shot` if there is none.
pub open spec fn stem(p: Seq<char>) -> Seq<char> {
    match file_name(p) {
        None => "shot"@,
        Some(name) => match extension_dot(name) {
            Some(d) => name.take(d),
            None => name,
        },
    }
}

/// The extension of the file name; `png` if there is none.
pub open spec fn extension(p: Seq<char>) -> Seq<char> {
    match file_name(p) {
        None => "png"@,
        Some(name) => match extension_dot(name) {
            Some(d) => name.skip(d + 1),
            None => "png"@,
        },
    }
}

/// `out.png` -> `out-0007.png`.
pub open spec fn numbered(p: Seq<char>, frame: nat) -> Seq<char> {
    joined(
        directory(p),
        stem(p) + "-"@ + padded_decimal(frame, 4) + "."@ + extension(p),
    )
}

fn last_start_at(s: &str, n: usize, root: usize) -> (r: usize)
    requires
        root <= n <= s@.len(),
    ensures
        r == last_start(s@.take(n as int), root as nat),
        root <= r <= n,
{
    let mut i: usize = n;
    while i > root
        invariant
            root <= i <= n <= s@.len(),
            last_start(s@.take(n as int), root as nat) == last_start(
                s@.take(i as int),
                root as nat,
            ),
        decreases i,
    {
        assert(s@.take(i as int).last() == s@[i - 1]);
        assert(s@.take(i as int).drop_last() =~= s@.take(i - 1));
        if s.get_char(i - 1) == '/' {
            return i;
        }
        i -= 1;
    }
    i
}

/// Length of the first `n` characters without the components at their end that
/// do not count.
fn trimmed_len(s: &str, n: usize, root: usize) -> (r: usize)
    requires
        root <= n <= s@.len(),
    ensures
        root <= r <= n,
        s@.take(r as int) == trimmed(s@.take(n as int), root as nat),
{
    let mut i: usize = n;
    while i > root
        invariant
            root <= i <= n <= s@.len(),
            trimmed(s@.take(i as int), root as nat) == trimmed(s@.take(n as int), root as nat),
        decreases i,
    {
        let ghost p = s@.take(i as int);
        let start: usize = last_start_at(s, i, root);
        let ghost last = p.skip(start as int);
        let dull: bool = start == i || (start + 1 == i && s.get_char(start) == '.');
        assert(dull <==> (last.len() == 0 || last == seq!['.'])) by {
            if start + 1 == i {
                assert(last[0] == s@[start as int]);
                if last[0] == '.' {
                    assert(last =~= seq!['.']);
                }
            }
        }
        if !dull {
            return i;
        }
        proof {
            lemma_last_start(p, root as nat);
        }
        let cut: usize = if start > root {
            start - 1
        } else {
            root
        };
        assert(p.take(cut as int) =~= s@.take(cut as int));
        i = cut;
    }
    i
}

/// Position of the last dot of a file name, unless that is its first
/// character.
fn find_extension_dot(name: &str) -> (r: Option<usize>)
    ensures
        match extension_dot(name@) {
            Some(d) => r is Some && r->0 == d && d < name@.len(),
            None => r is None,
        },
{
    let n: usize = name.unicode_len();
    let mut i: usize = n;
    proof {
        name@.index_of_last_ensures('.');
    }
    while i > 0
        invariant
            i <= n,
            n == name@.len(),
            forall|j: int| i <= j < n ==> name@[j] != '.',
            match name@.index_of_last('.') {
                Some(d) => {
                    &&& 0 <= d < name@.len()
                    &&& name@[d] == '.'
                    &&& forall|j: int| d < j < name@.len() ==> name@[j] != '.'
                },
                None => !name@.contains('.'),
            },
        decreases i,
    {
        if name.get_char(i - 1) == '.' {
            assert(name@.contains('.'));
            assert(name@.index_of_last('.') == Some(i - 1));
            return if i > 1 {
                Some(i - 1)
            } else {
                None
            };
        }
        i -= 1;
    }
    None
}

/// Splits a path into what a file name is put behind, and the file name it
/// has.
fn split_path(out: &str) -> (r: (&str, Option<&str>))
    ensures
        r.0@ == directory(out@),
        match r.1 {
            Some(name) => file_name(out@) == Some(name@),
            None => file_name(out@) is None,
        },
{
    let n: usize = out.unicode_len();
    let root: usize = if n > 0 && out.get_char(0) == '/' {
        1
    } else if n > 0 && out.get_char(0) == '.' && (n == 1 || out.get_char(1) == '/') {
        1
    } else {
        0
    };
    assert(out@.take(n as int) =~= out@);
    let end: usize = trimmed_len(out, n, root);
    let start: usize = last_start_at(out, end, root);
    let ghost t = out@.take(end as int);
    let last: &str = out.substring_char(start, end);
    assert(last@ =~= t.skip(start as int));
    proof {
        lemma_last_start(t, root as nat);
        reveal_strlit("..");
        assert(".."@ =~= seq!['.', '.']);
    }
    if end <= root || same_text(last, "..") {
        return (out, None);
    }
    let cut: usize = if start > root {
        start - 1
    } else {
        root
    };
    assert(t.take(cut as int) =~= out@.take(cut as int));
    let dir: &str = out.substring_char(0, trimmed_len(out, cut, root));
    (dir, Some(last))
}

/// Splits a file name into stem and extension.
fn split_name(name: &str) -> (r: (&str, &str))
    ensures
        match extension_dot(name@) {
            Some(d) => r.0@ == name@.take(d) && r.1@ == name@.skip(d + 1),
            None => r.0@ == name@ && r.1@ == "png"@,
        },
{
    let n: usize = name.unicode_len();
    match find_extension_dot(name) {
        Some(d) => {
            let before = name.substring_char(0, d);
            let after = name.substring_char(d + 1, n);
            assert(before@ =~= name@.take(d as int));
            assert(after@ =~= name@.skip(d as int + 1));
            (before, after)
        },
        None => (name, "png"),
    }
}

/// The path of frame number `frame` of the shot `out`: beside it, with the
/// number in the file name.
pub fn frame_path(out: &str, frame: u32) -> (r: String)
    ensures
        r@ == numbered(out@, frame as nat),
{
    let (dir, name): (&str, Option<&str>) = split_path(out);
    let (stem_text, ext): (&str, &str) = match name {
        Some(name) => split_name(name),
        None => ("shot", "png"),
    };
    assert(stem_text@ == stem(out@) && ext@ == extension(out@));

    let mut file: String = stem_text.to_owned();
    let digits: String = padded_decimal_text(frame, 4);
    file.append("-");
    file.append(digits.as_str());
    file.append(".");
    file.append(ext);

    let dir_len: usize = dir.unicode_len();
    let mut path: String = dir.to_owned();
    if dir_len > 0 && dir.get_char(dir_len - 1) != '/' {
        proof {
            reveal_strlit("/");
            assert("/"@ =~= seq!['/']);
        }
        path.append("/");
    }
    path.append(file.as_str());
    path
}

/// No two frames of a shot share a file.
pub proof fn law_frames_do_not_collide(out: Seq<char>, a: nat, b: nat)
    requires
        numbered(out, a) == numbered(out, b),
    ensures
        a == b,
{
    let dir = directory(out);
    let head = if dir.len() == 0 || dir.last() == '/' {
        dir
    } else {
        dir + seq!['/']
    } + stem(out) + "-"@;
    let tail = "."@ + extension(out);
    let da = padded_decimal(a, 4);
    let db = padded_decimal(b, 4);
    assert(numbered(out, a) =~= head + da + tail);
    assert(numbered(out, b) =~= head + db + tail);
    assert(da.len() == db.len());
    assert(da =~= db) by {
        assert forall|i: int| 0 <= i < da.len() implies da[i] == db[i] by {
            assert((head + da + tail)[head.len() + i] == da[i]);
            assert((head + db + tail)[head.len() + i] == db[i]);
        }
    }
    law_decimal_round_trip(a, 4);
    law_decimal_round_trip(b, 4);
}

proof fn lemma_last_component(p: Seq<char>, root: nat)
    requires
        root <= p.len(),
    ensures
        root <= last_start(p, root) <= p.len(),
        !p.skip(last_start(p, root)).contains('/'),
        forall|j: int|
            root <= j <= p.len() && !(#[trigger] p.skip(j)).contains('/') ==> last_start(p, root)
                <= j,
    decreases p.len(),
{
    lemma_last_start(p, root);
    if p.len() > root {
        let shorter = p.drop_last();
        if p.last() == '/' {
            assert forall|j: int|
                root <= j <= p.len() && !(#[trigger] p.skip(j)).contains('/') implies last_start(
                p,
                root,
            ) <= j by {
                if j < p.len() {
                    assert(p.skip(j)[p.len() - 1 - j] == '/');
                }
            }
        } else {
            lemma_last_component(shorter, root);
            let start = last_start(p, root);
            assert(p.skip(start) =~= shorter.skip(start).push(p.last()));
            assert forall|i: int| 0 <= i < p.skip(start).len() implies p.skip(start)[i] != '/' by {
                if i < shorter.skip(start).len() {
                    assert(shorter.skip(start)[i] != '/') by {
                        if shorter.skip(start)[i] == '/' {
                            assert(shorter.skip(start).contains('/'));
                        }
                    }
                }
            }
            assert forall|j: int|
                root <= j <= p.len() && !(#[trigger] p.skip(j)).contains('/') implies start <= j by {
                if j < p.len() {
                    assert forall|i: int| 0 <= i < shorter.skip(j).len() implies shorter.skip(
                        j,
                    )[i] != '/' by {
                        assert(p.skip(j)[i] == shorter.skip(j)[i]);
                        if p.skip(j)[i] == '/' {
                            assert(p.skip(j).contains('/'));
                        }
                    }
                    assert(!shorter.skip(j).contains('/'));
                }
            }
        }
    }
}

proof fn lemma_trimmed(p: Seq<char>, root: nat)
    requires
        root <= p.len(),
    ensures
        root <= trimmed(p, root).len() <= p.len(),
    decreases p.len(),
{
    lemma_last_start(p, root);
    let last = p.skip(last_start(p, root));
    if p.len() > root && (last.len() == 0 || last == seq!['.']) {
        lemma_trimmed(p.take(last_cut(p, root)), root);
    }
}

/// A file name holds no `/`, and neither do its stem and its extension.
proof fn lemma_name_parts(p: Seq<char>)
    ensures
        file_name(p) matches Some(name) ==> !name.contains('/') && stem(p).len() + 1 + extension(
            p,
        ).len() >= name.len(),
        !stem(p).contains('/'),
        !extension(p).contains('/'),
{
    reveal_strlit("shot");
    reveal_strlit("png");
    let root = root_len(p);
    match file_name(p) {
        None => {},
        Some(name) => {
            lemma_trimmed(p, root);
            lemma_last_component(trimmed(p, root), root);
            name.index_of_last_ensures('.');
            assert forall|i: int| 0 <= i < name.len() implies name[i] != '/' by {
                if name[i] == '/' {
                    assert(name.contains('/'));
                }
            }
        },
    }
}

/// A numbered frame never goes to the file of the shot itself.
pub proof fn law_numbered_is_another_file(out: Seq<char>, frame: nat)
    ensures
        numbered(out, frame) != out,
{
    reveal_strlit("-");
    reveal_strlit(".");
    let digits = padded_decimal(frame, 4);
    let file = stem(out) + "-"@ + digits + "."@ + extension(out);
    law_decimal_round_trip(frame, 4);
    lemma_name_parts(out);
    if numbered(out, frame) == out && file_name(out) is Some {
        let root = root_len(out);
        let at = out.len() - file.len();
        assert forall|i: int| 0 <= i < file.len() implies file[i] != '/' by {
            let a = stem(out).len();
            let b = a + 1 + digits.len();
            if i < a {
                assert(file[i] == stem(out)[i]);
                assert(stem(out).contains(stem(out)[i]));
            } else if a < i < b {
                assert(file[i] == digits[i - a - 1]);
            } else if i > b {
                assert(file[i] == extension(out)[i - b - 1]);
                assert(extension(out).contains(extension(out)[i - b - 1]));
            }
        }
        assert(out.skip(at) =~= file);
        if at == 0 {
            assert(out[0] == file[0] && out[1] == file[1]);
        }
        lemma_last_component(out, root);
        let last = out.skip(last_start(out, root));
        assert(last.len() >= file.len());
        assert(trimmed(out, root) == out);
    }
}

/// What may stand before a file name: nothing, the root, or a directory that is
/// written out, with the `/` behind it.
pub open spec fn plain_prefix(prefix: Seq<char>) -> bool {
    ||| prefix.len() == 0
    ||| prefix == seq!['/']
    ||| prefix.len() >= 2 && prefix.last() == '/' && prefix[prefix.len() - 2] != '/'
        && prefix[prefix.len() - 2] != '.'
}

proof fn lemma_plain_path(prefix: Seq<char>, name: Seq<char>)
    requires
        plain_prefix(prefix),
        name.len() > 0,
        !name.contains('/'),
        name != seq!['.'],
        name != seq!['.', '.'],
    ensures
        file_name(prefix + name) == Some(name),
        forall|file: Seq<char>| #[trigger]
            joined(directory(prefix + name), file) == prefix + file,
{
    let out = prefix + name;
    let root = root_len(out);
    let at = prefix.len() as int;
    assert forall|i: int| 0 <= i < name.len() implies name[i] != '/' by {
        if name[i] == '/' {
            assert(name.contains('/'));
        }
    }
    assert(out[at] == name[0]);
    if at == 0 {
        assert(out =~= name);
        if name.len() == 1 && name[0] == '.' {
            assert(name =~= seq!['.']);
        }
        assert(root == 0);
    } else {
        assert(out[0] == prefix[0]);
        assert(root <= 1);
    }
    assert(out.skip(at) =~= name);
    lemma_last_component(out, root);
    let start = last_start(out, root);
    assert(start <= at);
    if start < at {
        assert(out[at - 1] == '/');
        assert(out.skip(start)[at - 1 - start] == '/');
        assert(false);
    }
    assert(trimmed(out, root) == out);
    if at >= 2 {
        let dir = prefix.drop_last();
        assert(out.take(at - 1) =~= dir);
        let n = dir.len() as int;
        assert(dir.last() == prefix[at - 2]);
        if n == 1 && root == 1 {
            assert(out[0] == dir[0]);
            assert(false);
        }
        lemma_last_start(dir.drop_last(), root);
        let tail = dir.skip(last_start(dir, root));
        assert(tail.len() > 0);
        assert(tail.last() == dir.last());
        assert(trimmed(dir, root) == dir);
        assert(directory(out) == dir);
        assert forall|file: Seq<char>| #[trigger] joined(directory(out), file) == prefix + file by {
            assert(dir + seq!['/'] + file =~= prefix + file);
        }
    } else if at == 1 {
        assert(prefix =~= seq!['/']);
        assert(out.take(1) =~= prefix);
        assert(trimmed(prefix, root) == prefix);
        assert(directory(out) == prefix);
    } else {
        assert(out.take(0) =~= prefix);
        assert(trimmed(prefix, root) == prefix);
        assert(directory(out) == prefix);
    }
}

/// The number goes before the extension, with at least four digits and a dash in
/// front, and the directory stays: `dir/stem.ext` becomes `dir/stem-0007.ext`.
pub proof fn law_number_goes_before_the_extension(
    prefix: Seq<char>,
    name: Seq<char>,
    ext: Seq<char>,
    frame: nat,
)
    requires
        plain_prefix(prefix),
        name.len() > 0,
        !name.contains('/'),
        !ext.contains('/'),
        !ext.contains('.'),
        ext.len() > 0 || name != seq!['.'],
    ensures
        numbered(prefix + (name + seq!['.'] + ext), frame) == prefix + (name + seq!['-']
            + padded_decimal(frame, 4) + seq!['.'] + ext),
{
    reveal_strlit("-");
    reveal_strlit(".");
    assert("-"@ =~= seq!['-']);
    assert("."@ =~= seq!['.']);
    let whole = name + seq!['.'] + ext;
    let n = name.len() as int;
    assert forall|i: int| 0 <= i < whole.len() implies whole[i] != '/' by {
        if i < n {
            assert(whole[i] == name[i]);
            assert(name.contains(name[i]));
        } else if i > n {
            assert(whole[i] == ext[i - n - 1]);
            assert(ext.contains(ext[i - n - 1]));
        }
    }
    assert(whole.len() >= 2);
    if whole == seq!['.', '.'] {
        assert(name =~= seq!['.']);
        assert(false);
    }
    lemma_plain_path(prefix, whole);
    whole.index_of_last_ensures('.');
    assert(whole[n] == '.');
    assert(whole.contains('.'));
    let d = whole.index_of_last('.')->0;
    if d > n {
        assert(whole[d] == ext[d - n - 1]);
        assert(ext.contains(ext[d - n - 1]));
    }
    assert(d == n);
    assert(whole.take(n) =~= name);
    assert(whole.skip(n + 1) =~= ext);
}

/// A file name without an extension gets `png`.
pub proof fn law_bare_names_become_png(prefix: Seq<char>, name: Seq<char>, frame: nat)
    requires
        plain_prefix(prefix),
        name.len() > 0,
        !name.contains('/'),
        !name.contains('.'),
    ensures
        numbered(prefix + name, frame) == prefix + (name + seq!['-'] + padded_decimal(frame, 4)
            + seq!['.', 'p', 'n', 'g']),
{
    reveal_strlit("-");
    reveal_strlit(".");
    reveal_strlit("png");
    assert("-"@ =~= seq!['-']);
    assert("."@ + "png"@ =~= seq!['.', 'p', 'n', 'g']);
    if name == seq!['.'] || name == seq!['.', '.'] {
        assert(name[0] == '.');
        assert(name.contains('.'));
    }
    lemma_plain_path(prefix, name);
    name.index_of_last_ensures('.');
    assert(name + "-"@ + padded_decimal(frame, 4) + "."@ + "png"@ =~= name + seq!['-']
        + padded_decimal(frame, 4) + seq!['.', 'p', 'n', 'g']);
}

} // verus!
