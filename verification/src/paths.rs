//! The names of files beside a file: the same path with something added to its last component.

use crate::text::{
    concat, lemma_split_append, lemma_split_nonempty, same_text, split_on, split_text, texts,
};
use vstd::prelude::*;
use vstd::string::*;

verus! {

/// A path without the separators and the `.` components at its end.
pub open spec fn stripped(path: Seq<char>) -> Seq<char>
    decreases path.len(),
{
    if path.len() > 1 && (path.last() == '/' || (path.last() == '.' && path[path.len() - 2]
        == '/')) {
        stripped(path.drop_last())
    } else {
        path
    }
}

/// The last component of a path; `None` where that is no file's name, as in `/`, `.` and `..`.
pub open spec fn file_name(path: Seq<char>) -> Option<Seq<char>> {
    let name = split_on(stripped(path), '/').last();
    if name.len() == 0 || name == "."@ || name == ".."@ {
        None
    } else {
        Some(name)
    }
}

/// What stands in a directory under a name.
pub open spec fn joined(dir: Seq<char>, name: Seq<char>) -> Seq<char> {
    if dir.len() == 0 || dir.last() == '/' {
        dir + name
    } else {
        dir + "/"@ + name
    }
}

/// The path with the suffix added to the name of its file, where it has one.
pub open spec fn suffixed(path: Seq<char>, suffix: Seq<char>) -> Option<Seq<char>> {
    match file_name(path) {
        Some(name) => {
            let body = stripped(path);
            Some(joined(stripped(body.take(body.len() - name.len())), name + suffix))
        },
        None => None,
    }
}

/// The last piece of a text is no longer than the text.
proof fn lemma_last_piece(s: Seq<char>, sep: char)
    ensures
        split_on(s, sep).len() > 0,
        split_on(s, sep).last().len() <= s.len(),
    decreases s.len(),
{
    if s.len() > 0 {
        lemma_last_piece(s.drop_last(), sep);
    }
}

/// Drops the separators and the `.` components at the end of a path.
fn strip_path(path: &str) -> (r: &str)
    ensures
        r@ == stripped(path@),
{
    let mut n: usize = path.unicode_len();
    assert(path@.take(n as int) =~= path@);
    while n > 1 && (path.get_char(n - 1) == '/' || (path.get_char(n - 1) == '.' && path.get_char(
        n - 2,
    ) == '/'))
        invariant
            n <= path@.len(),
            stripped(path@.take(n as int)) == stripped(path@),
        decreases n,
    {
        assert(path@.take(n as int).drop_last() =~= path@.take(n - 1));
        n = n - 1;
    }
    assert(path@.subrange(0, n as int) =~= path@.take(n as int));
    path.substring_char(0, n)
}

/// The path with the suffix added to the name of its file, where it has one.
pub fn with_suffix(path: &str, suffix: &str) -> (r: Option<String>)
    ensures
        match r {
            Some(file) => suffixed(path@, suffix@) == Some(file@),
            None => suffixed(path@, suffix@) is None,
        },
{
    let body: &str = strip_path(path);
    let pieces: Vec<String> = split_text(body, '/');
    proof {
        lemma_last_piece(body@, '/');
    }
    let name: &str = pieces[pieces.len() - 1].as_str();
    assert(name@ == texts(pieces@).last());
    if name.is_empty() || same_text(name, ".") || same_text(name, "..") {
        return None;
    }
    let rest: usize = body.unicode_len() - name.unicode_len();
    assert(body@.subrange(0, rest as int) =~= body@.take(rest as int));
    let dir: &str = strip_path(body.substring_char(0, rest));
    let file: String = concat(name, suffix);
    let dir_len: usize = dir.unicode_len();
    if dir_len == 0 || dir.get_char(dir_len - 1) == '/' {
        Some(concat(dir, file.as_str()))
    } else {
        Some(concat(dir, "/").concat(file.as_str()))
    }
}

/// Whether the path names a file.
pub fn has_file_name(path: &str) -> (r: bool)
    ensures
        r == (file_name(path@) is Some),
{
    with_suffix(path, "").is_some()
}

/// A plain name in a directory: the files beside it are in that directory, under the longer names.
pub proof fn suffix_goes_to_the_name(dir: Seq<char>, name: Seq<char>, suffix: Seq<char>)
    requires
        dir.len() > 0,
        dir.last() != '/',
        stripped(dir) == dir,
        name.len() > 0,
        name.last() != '.',
        forall|i: int| 0 <= i < name.len() ==> (#[trigger] name[i]) != '/',
    ensures
        file_name(dir + "/"@ + name) == Some(name),
        suffixed(dir + "/"@ + name, suffix) == Some(dir + "/"@ + name + suffix),
{
    reveal_strlit("/");
    reveal_strlit(".");
    reveal_strlit("..");
    let head = dir + "/"@;
    let path = head + name;
    assert("/"@ =~= seq!['/']);
    assert(path.last() == name.last());
    assert(name[name.len() - 1] != '/');
    assert(stripped(path) == path);
    assert(head.drop_last() =~= dir);
    lemma_split_append(head, name, '/');
    lemma_split_nonempty(dir, '/');
    assert(split_on(head, '/').last() =~= Seq::<char>::empty());
    assert(Seq::<char>::empty() + name =~= name);
    assert("."@[0] == '.' && ".."@[1] == '.');
    assert(path.take(path.len() - name.len()) =~= head);
    assert(stripped(head) == dir);
    assert(dir + "/"@ + (name + suffix) =~= dir + "/"@ + name + suffix);
}

/// Separators and `.` components at the end of a path are no part of its name; a path that ends in
/// neither stays as it is.
pub proof fn end_of_a_path_is_no_part_of_its_name(path: Seq<char>)
    requires
        path.len() > 0,
    ensures
        stripped(path + seq!['/']) == stripped(path),
        stripped(path + seq!['/', '.']) == stripped(path),
        path.last() != '/' && path.last() != '.' ==> stripped(path) == path,
        stripped(seq!['/']) == seq!['/'],
{
    let slash = path + seq!['/'];
    assert(slash.drop_last() =~= path);
    let dot = path + seq!['/', '.'];
    assert(dot.drop_last() =~= slash);
    assert(dot.last() == '.' && dot[dot.len() - 2] == '/');
    assert(stripped(dot) == stripped(slash));
}

/// What ends in `.` or `..`, or is nothing but separators, names no file; any other last component
/// does.
pub proof fn last_component_is_the_name(dir: Seq<char>, name: Seq<char>)
    requires
        name.len() > 0,
        name.last() != '.',
        forall|i: int| 0 <= i < name.len() ==> (#[trigger] name[i]) != '/',
    ensures
        file_name(dir + "/"@ + name) == Some(name),
        file_name(name) == Some(name),
        file_name(Seq::empty()) is None,
        file_name("/"@) is None,
        file_name("."@) is None,
        file_name(".."@) is None,
        file_name(dir + "/"@ + ".."@) is None,
{
    reveal_strlit("/");
    reveal_strlit(".");
    reveal_strlit("..");
    assert("/"@ =~= seq!['/']);
    let none = Seq::<char>::empty();
    let head = dir + "/"@;
    lemma_split_append(head, name, '/');
    lemma_split_append(none, name, '/');
    lemma_split_append(head, ".."@, '/');
    lemma_split_append(none, ".."@, '/');
    lemma_split_append(none, "."@, '/');
    assert(head.drop_last() =~= dir);
    lemma_split_nonempty(dir, '/');
    assert(split_on(head, '/').last() =~= none);
    assert(split_on(none, '/').last() =~= none);
    assert(none + name =~= name);
    assert(none + ".."@ =~= ".."@);
    assert(none + "."@ =~= "."@);
    assert((head + name).last() == name.last());
    assert(name[name.len() - 1] != '/');
    assert((head + ".."@)[(head + ".."@).len() - 2] == '.');
    assert("."@[0] == '.' && ".."@[1] == '.');
    assert("/"@.drop_last() =~= none);
    assert(split_on("/"@, '/').last() =~= none);
}

/// A name in a directory stands after a separator, unless the directory is none or ends in one.
pub proof fn name_stands_after_a_separator(dir: Seq<char>, name: Seq<char>)
    ensures
        dir.len() > 0 && dir.last() != '/' ==> joined(dir, name) == dir + seq!['/'] + name,
        dir.len() == 0 ==> joined(dir, name) == name,
        dir.len() > 0 && dir.last() == '/' ==> joined(dir, name) == dir + name,
{
    reveal_strlit("/");
    assert("/"@ =~= seq!['/']);
    assert(dir.len() == 0 ==> dir + name =~= name);
}

} // verus!
