//! Paths as texts.
use crate::text::{chars_of, run_to_char, same_text, split, split_once, string_of, texts};
use vstd::prelude::*;
use vstd::slice::slice_subrange;

verus! {

/// A path that begins at the root.
pub open spec fn absolute(path: Seq<char>) -> bool {
    path.len() > 0 && path[0] == '/'
}

/// Whether a path begins at the root.
pub fn is_absolute(path: &str) -> (yes: bool)
    ensures
        yes == absolute(path@),
{
    let chars = chars_of(path);
    chars.len() > 0 && chars[0] == '/'
}

/// A path within a directory; a path that begins at the root stays as it is.
pub open spec fn join_path(directory: Seq<char>, path: Seq<char>) -> Seq<char> {
    if absolute(path) {
        path
    } else if directory.len() == 0 || directory.last() == '/' {
        directory + path
    } else {
        directory + seq!['/'] + path
    }
}

/// A path within a directory.
pub fn joined_path(directory: &str, path: &str) -> (result: String)
    ensures
        result@ == join_path(directory@, path@),
{
    if is_absolute(path) {
        return path.to_owned();
    }
    let chars = chars_of(directory);
    let mut result = directory.to_owned();
    if chars.len() > 0 && chars[chars.len() - 1] != '/' {
        result.push('/');
    }
    result.append(path);
    assert(result@ == join_path(directory@, path@));
    result
}

/// The parts of a path between slashes, without the empty ones and those that name the directory
/// that they stand in.
pub open spec fn named_parts(parts: Seq<Seq<char>>) -> Seq<Seq<char>>
    decreases parts.len(),
{
    if parts.len() == 0 {
        seq![]
    } else {
        let first = parts[0];
        if first.len() == 0 || first == "."@ {
            named_parts(parts.skip(1))
        } else {
            seq![first] + named_parts(parts.skip(1))
        }
    }
}

/// A path that begins with the directory that it starts from.
pub open spec fn from_here(path: Seq<char>) -> bool {
    split(path, '/')[0] == "."@
}

/// Two paths with the same components: slashes in a row count as one, one at the end counts as
/// none, and so does a dot but at the start.
pub open spec fn same_path(left: Seq<char>, right: Seq<char>) -> bool {
    &&& absolute(left) == absolute(right)
    &&& from_here(left) == from_here(right)
    &&& named_parts(split(left, '/')) == named_parts(split(right, '/'))
}

/// The named parts of a path.
fn parts_of(path: &str) -> (parts: Vec<String>)
    ensures
        texts(parts@) == named_parts(split(path@, '/')),
{
    let chars = chars_of(path);
    let mut parts: Vec<String> = Vec::new();
    let mut start: usize = 0;
    assert(path@.skip(0) == path@);
    assert(texts(parts@) + named_parts(split(path@, '/')) == named_parts(split(path@, '/')));
    loop
        invariant
            chars@ == path@,
            start <= chars@.len(),
            texts(parts@) + named_parts(split(path@.skip(start as int), '/')) == named_parts(
                split(path@, '/'),
            ),
        decreases chars@.len() - start,
    {
        let rest = slice_subrange(chars.as_slice(), start, chars.len());
        assert(rest@ == path@.skip(start as int));
        let len = run_to_char(rest, '/');
        let part = string_of(slice_subrange(rest, 0, len));
        assert(part@ == rest@.take(len as int));
        let ghost before = texts(parts@);
        let ghost pieces = split(rest@, '/');
        proof {
            if len < rest@.len() {
                assert(split_once(rest@, '/') == Some((rest@.take(len as int), rest@.skip(len + 1))));
                assert(pieces.skip(1) == split(rest@.skip(len + 1), '/'));
                assert(rest@.skip(len + 1) == path@.skip(start + len + 1));
            } else {
                assert(rest@.take(len as int) == rest@);
                assert(pieces == seq![rest@]);
                assert(pieces.skip(1) == Seq::<Seq<char>>::empty());
            }
            assert(pieces[0] == part@);
        }
        if part.as_str().is_empty() || same_text(part.as_str(), ".") {
            assert(named_parts(pieces) == named_parts(pieces.skip(1)));
        } else {
            parts.push(part);
            assert(texts(parts@) == before.push(part@));
            assert(before + (seq![part@] + named_parts(pieces.skip(1))) == texts(parts@)
                + named_parts(pieces.skip(1)));
        }
        if len == rest.len() {
            assert(texts(parts@) + Seq::<Seq<char>>::empty() == texts(parts@));
            return parts;
        }
        start = start + len + 1;
    }
}

/// Whether a path begins with the directory that it starts from.
fn starts_here(path: &str) -> (yes: bool)
    ensures
        yes == from_here(path@),
{
    let chars = chars_of(path);
    let len = run_to_char(chars.as_slice(), '/');
    let first = string_of(slice_subrange(chars.as_slice(), 0, len));
    assert(first@ == path@.take(len as int));
    assert(path@.take(path@.len() as int) == path@);
    same_text(first.as_str(), ".")
}

/// Whether two paths have the same components.
pub fn paths_equal(left: &str, right: &str) -> (same: bool)
    ensures
        same == same_path(left@, right@),
{
    if is_absolute(left) != is_absolute(right) || starts_here(left) != starts_here(right) {
        return false;
    }
    let first = parts_of(left);
    let second = parts_of(right);
    if first.len() != second.len() {
        assert(texts(first@).len() != texts(second@).len());
        return false;
    }
    let mut i: usize = 0;
    while i < first.len()
        invariant
            i <= first@.len(),
            first@.len() == second@.len(),
            texts(first@) == named_parts(split(left@, '/')),
            texts(second@) == named_parts(split(right@, '/')),
            forall|k: int| 0 <= k < i ==> texts(first@)[k] == texts(second@)[k],
        decreases first@.len() - i,
    {
        if !same_text(first[i].as_str(), second[i].as_str()) {
            assert(texts(first@)[i as int] != texts(second@)[i as int]);
            return false;
        }
        i += 1;
    }
    assert(texts(first@) == texts(second@));
    true
}

/// Every path has the components of itself.
pub proof fn a_path_equals_itself(path: Seq<char>)
    ensures
        same_path(path, path),
{
}

/// A path that begins at the root stays as it is. Any other stands behind the directory, with one
/// slash between them.
pub proof fn a_joined_path_stands_within_the_directory(directory: Seq<char>, path: Seq<char>)
    ensures
        path.len() > 0 && path[0] == '/' ==> join_path(directory, path) == path,
        !(path.len() > 0 && path[0] == '/') && directory.len() > 0 && directory.last() != '/'
            ==> join_path(directory, path) == directory.push('/') + path,
        !(path.len() > 0 && path[0] == '/') && directory.len() > 0 && directory.last() == '/'
            ==> join_path(directory, path) == directory + path,
        !(path.len() > 0 && path[0] == '/') ==> join_path(seq![], path) == path,
{
    assert(directory + seq!['/'] + path == directory.push('/') + path);
    assert(Seq::<char>::empty() + path == path);
}

/// The named parts of two lists of parts, one behind the other, are those of the first and then
/// those of the second; a part is named unless it is empty or a dot.
pub proof fn parts_are_named_one_by_one(
    first: Seq<Seq<char>>,
    second: Seq<Seq<char>>,
    part: Seq<char>,
)
    ensures
        named_parts(first + second) == named_parts(first) + named_parts(second),
        named_parts(seq![part]) == if part.len() == 0 || part == "."@ {
            seq![]
        } else {
            seq![part]
        },
        named_parts(seq![]) == Seq::<Seq<char>>::empty(),
    decreases first.len(),
{
    assert(seq![part].skip(1) == Seq::<Seq<char>>::empty());
    assert(named_parts(seq![]) == Seq::<Seq<char>>::empty());
    assert(seq![part] + Seq::<Seq<char>>::empty() == seq![part]);
    if first.len() == 0 {
        assert(first + second == second);
        assert(named_parts(first) == Seq::<Seq<char>>::empty());
        assert(Seq::<Seq<char>>::empty() + named_parts(second) == named_parts(second));
    } else {
        parts_are_named_one_by_one(first.skip(1), second, part);
        assert((first + second).skip(1) == first.skip(1) + second);
        assert((first + second)[0] == first[0]);
        assert(seq![first[0]] + (named_parts(first.skip(1)) + named_parts(second)) == seq![first[0]]
            + named_parts(first.skip(1)) + named_parts(second));
    }
}

/// A slash at the end of a path makes no difference, nor do two slashes in a row.
pub proof fn slashes_in_a_row_count_as_one(before: Seq<char>, behind: Seq<char>)
    requires
        before.len() > 0,
    ensures
        same_path(before.push('/') + behind, before.push('/').push('/') + behind),
        same_path(before, before.push('/')),
{
    lemma_split_behind(before, Seq::<char>::empty());
    assert(before.push('/') + Seq::<char>::empty() == before.push('/'));
    crate::text::a_joined_text_is_split_there(Seq::<char>::empty(), '/', behind);
    assert(split(Seq::<char>::empty(), '/') == seq![Seq::<char>::empty()]);
    parts_are_named_one_by_one(
        split(before, '/'),
        seq![Seq::<char>::empty()],
        Seq::<char>::empty(),
    );
    assert(named_parts(split(before, '/')) + Seq::<Seq<char>>::empty() == named_parts(
        split(before, '/'),
    ));
    lemma_split_behind(before, behind);
    let rest = seq!['/'] + behind;
    lemma_split_behind(before, rest);
    assert(before.push('/').push('/') + behind == before.push('/') + rest);
    let nothing = Seq::<char>::empty();
    crate::text::a_joined_text_is_split_there(nothing, '/', behind);
    assert(nothing.push('/') + behind == rest);
    assert(split(rest, '/') == seq![nothing] + split(behind, '/'));
    parts_are_named_one_by_one(seq![nothing], split(behind, '/'), nothing);
    parts_are_named_one_by_one(split(before, '/'), split(behind, '/'), nothing);
    parts_are_named_one_by_one(split(before, '/'), split(rest, '/'), nothing);
    assert(Seq::<Seq<char>>::empty() + named_parts(split(behind, '/')) == named_parts(
        split(behind, '/'),
    ));
    assert(split(before, '/').len() > 0);
    assert((before.push('/') + behind)[0] == before[0]);
    assert((before.push('/') + rest)[0] == before[0]);
}

/// The pieces of a text are those before a separator and then those behind it.
proof fn lemma_split_behind(before: Seq<char>, behind: Seq<char>)
    ensures
        split(before.push('/') + behind, '/') == split(before, '/') + split(behind, '/'),
    decreases before.len(),
{
    crate::text::a_split_text_joins_again(before, '/');
    match split_once(before, '/') {
        Some((first, rest)) => {
            assert(before.push('/') + behind == first.push('/') + (rest.push('/') + behind));
            crate::text::a_joined_text_is_split_there(first, '/', rest.push('/') + behind);
            assert(before.len() == first.len() + 1 + rest.len());
            lemma_split_behind(rest, behind);
            assert(seq![first] + (split(rest, '/') + split(behind, '/')) == seq![first] + split(
                rest,
                '/',
            ) + split(behind, '/'));
        },
        None => {
            crate::text::a_joined_text_is_split_there(before, '/', behind);
        },
    }
}

/// Two paths within one directory are the same only where they are: what is named in them is the
/// same, part by part, and both begin at the root or neither does.
pub proof fn same_paths_name_the_same(left: Seq<char>, right: Seq<char>, third: Seq<char>)
    ensures
        same_path(left, right) == same_path(right, left),
        same_path(left, right) && same_path(right, third) ==> same_path(left, third),
        same_path(left, right) ==> (left.len() > 0 && left[0] == '/' <==> right.len() > 0 && right[0]
            == '/'),
        same_path(left, right) ==> named_parts(split(left, '/')) == named_parts(split(right, '/')),
{
}

} // verus!
