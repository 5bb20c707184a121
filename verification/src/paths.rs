//! Paths as text. A path is cut at every `/` into pieces; the pieces that
//! name something are its components. Nothing here looks at a file system.

use vstd::prelude::*;
use crate::text::{append_chars, copy_chars, find_last, last_index, same_chars, slice_chars};

verus! {

/// The texts that a list of character vectors holds.
pub open spec fn texts(parts: Seq<Vec<char>>) -> Seq<Seq<char>> {
    Seq::new(parts.len(), |i: int| parts[i]@)
}

/// The pieces of `path` between its separators, empty ones included: one more
/// piece than `path` has separators.
pub open spec fn split(path: Seq<char>) -> Seq<Seq<char>>
    decreases path.len(),
{
    if path.len() == 0 {
        seq![Seq::<char>::empty()]
    } else {
        let before = split(path.drop_last());
        if path.last() == '/' {
            before.push(Seq::<char>::empty())
        } else {
            before.drop_last().push(before.last().push(path.last()))
        }
    }
}

/// The segments written one after another with a `/` between each two.
pub open spec fn join_segments(segments: Seq<Seq<char>>) -> Seq<char>
    decreases segments.len(),
{
    if segments.len() == 0 {
        Seq::<char>::empty()
    } else if segments.len() == 1 {
        segments[0]
    } else {
        join_segments(segments.drop_last()).push('/') + segments.last()
    }
}

/// The component that stands for the root directory.
pub open spec fn root_marker() -> Seq<char> {
    seq!['/']
}

/// The component that stands for the directory itself.
pub open spec fn current_marker() -> Seq<char> {
    seq!['.']
}

/// The component that stands for the directory above.
pub open spec fn parent_marker() -> Seq<char> {
    seq!['.', '.']
}

/// A path is absolute if it begins with a separator.
pub open spec fn is_absolute(path: Seq<char>) -> bool {
    path.len() > 0 && path[0] == '/'
}

/// A piece names something unless it is empty or the current-directory
/// marker.
pub open spec fn names_something(piece: Seq<char>) -> bool {
    piece.len() > 0 && piece != current_marker()
}

/// What stands before the named pieces: the root marker of an absolute path,
/// or the current-directory marker of a relative path that begins with it.
pub open spec fn leading(path: Seq<char>) -> Seq<Seq<char>> {
    if is_absolute(path) {
        seq![root_marker()]
    } else if split(path)[0] == current_marker() {
        seq![current_marker()]
    } else {
        Seq::<Seq<char>>::empty()
    }
}

/// The pieces that name something, in their order.
pub open spec fn named_pieces(pieces: Seq<Seq<char>>) -> Seq<Seq<char>> {
    pieces.filter(|piece: Seq<char>| names_something(piece))
}

/// The components of `path`: its leading marker, if it has one, then every
/// piece that names something. Repeated and trailing separators, and `.`
/// anywhere but at the start, leave no trace.
pub open spec fn components(path: Seq<char>) -> Seq<Seq<char>> {
    leading(path) + named_pieces(split(path))
}

/// `base` followed by `target`. An absolute `target` stands alone; otherwise
/// one separator is put between the two unless `base` is empty or already
/// ends with one.
pub open spec fn join_paths(base: Seq<char>, target: Seq<char>) -> Seq<char> {
    if is_absolute(target) {
        target
    } else if base.len() > 0 && base.last() != '/' {
        base.push('/') + target
    } else {
        base + target
    }
}

/// One step of resolution. The current-directory marker changes nothing; the
/// parent marker takes the last segment away, if there is one; anything else,
/// the root marker too, is added as it is.
pub open spec fn resolve_step(stack: Seq<Seq<char>>, component: Seq<char>) -> Seq<Seq<char>> {
    if component == current_marker() {
        stack
    } else if component == parent_marker() {
        if stack.len() > 0 {
            stack.drop_last()
        } else {
            stack
        }
    } else {
        stack.push(component)
    }
}

/// The segments left after the components were taken from left to right,
/// starting with `stack`.
pub open spec fn resolve_onto(stack: Seq<Seq<char>>, components: Seq<Seq<char>>) -> Seq<Seq<char>>
    decreases components.len(),
{
    if components.len() == 0 {
        stack
    } else {
        resolve_step(resolve_onto(stack, components.drop_last()), components.last())
    }
}

/// The segments left after the components were taken from left to right,
/// starting with nothing.
pub open spec fn resolve(components: Seq<Seq<char>>) -> Seq<Seq<char>> {
    resolve_onto(Seq::<Seq<char>>::empty(), components)
}

/// The segments that `target` resolves to, seen from `current_dir`.
pub open spec fn resolved_segments(current_dir: Seq<char>, target: Seq<char>) -> Seq<Seq<char>> {
    resolve(components(join_paths(current_dir, target)))
}

/// The path that `target` resolves to, seen from `current_dir`.
pub open spec fn resolved_path(current_dir: Seq<char>, target: Seq<char>) -> Seq<char> {
    join_segments(resolved_segments(current_dir, target))
}

/// What is left of `path` once the components of `base` are taken from its
/// front; all of `path` where it does not begin with them.
pub open spec fn strip_base(path: Seq<Seq<char>>, base: Seq<Seq<char>>) -> Seq<Seq<char>> {
    if base.is_prefix_of(path) {
        path.skip(base.len() as int)
    } else {
        path
    }
}

/// The components without the last one; nothing where there is none.
pub open spec fn parent(path: Seq<Seq<char>>) -> Seq<Seq<char>> {
    if path.len() > 0 {
        path.drop_last()
    } else {
        path
    }
}

/// The path that has the given components: they are joined, and a root marker
/// at their start is the first separator.
pub open spec fn path_of(components: Seq<Seq<char>>) -> Seq<char> {
    if components.len() > 0 && components[0] == root_marker() {
        root_marker() + join_segments(components.skip(1))
    } else {
        join_segments(components)
    }
}

/// The directory of the document `file`, relative to the content root
/// `root`. Where `file` does not lie under `root`, its own directory.
pub open spec fn document_dir(file: Seq<char>, root: Seq<char>) -> Seq<char> {
    path_of(parent(strip_base(components(file), components(root))))
}

/// The path that leads from `base` to `path`; none where `path` does not
/// begin with the components of `base`.
pub open spec fn relative_to(path: Seq<char>, base: Seq<char>) -> Option<Seq<char>> {
    if components(base).is_prefix_of(components(path)) {
        Some(path_of(components(path).skip(components(base).len() as int)))
    } else {
        None
    }
}

/// A component is a name unless it is one of the three markers.
pub open spec fn is_name(component: Seq<char>) -> bool {
    component != root_marker() && component != current_marker() && component != parent_marker()
}

/// The last component of `path`, where that is a name.
pub open spec fn file_name(path: Seq<char>) -> Option<Seq<char>> {
    let parts = components(path);
    if parts.len() > 0 && is_name(parts.last()) {
        Some(parts.last())
    } else {
        None
    }
}

/// What follows the last `.` of the file name of `path`; none where the
/// path has no file name, the name has no `.`, or its only `.` begins it.
pub open spec fn extension(path: Seq<char>) -> Option<Seq<char>> {
    match file_name(path) {
        Some(name) => if last_index(name, '.') > 0 {
            Some(name.skip(last_index(name, '.') + 1))
        } else {
            None
        },
        None => None,
    }
}

/// A split has at least one piece.
pub proof fn lemma_split_nonempty(path: Seq<char>)
    ensures
        split(path).len() >= 1,
    decreases path.len(),
{
    if path.len() > 0 {
        lemma_split_nonempty(path.drop_last());
    }
}

/// Cuts `path` at every `/`.
pub fn split_path(path: &Vec<char>) -> (pieces: Vec<Vec<char>>)
    ensures
        texts(pieces@) == split(path@),
{
    let mut done: Vec<Vec<char>> = Vec::new();
    let mut current: Vec<char> = Vec::new();
    let mut i: usize = 0;
    while i < path.len()
        invariant
            i <= path.len(),
            texts(done@).push(current@) == split(path@.take(i as int)),
        decreases path.len() - i,
    {
        let ghost seen = path@.take(i as int);
        let ghost next = path@.take(i + 1);
        proof {
            assert(next.drop_last() == seen);
            assert(next.last() == path@[i as int]);
            assert(texts(done@).push(current@).drop_last() == texts(done@));
        }
        let c = path[i];
        if c == '/' {
            let ghost before = texts(done@);
            done.push(current);
            current = Vec::new();
            proof {
                assert(texts(done@) == before.push(split(seen).last()));
                assert(texts(done@) == split(seen));
            }
        } else {
            current.push(c);
        }
        i = i + 1;
    }
    proof {
        assert(path@.take(path.len() as int) == path@);
    }
    let ghost before = texts(done@);
    let ghost last = current@;
    done.push(current);
    proof {
        assert(texts(done@) == before.push(last));
    }
    done
}

/// Writes the segments from position `from` up to, not including, `to` one
/// after another with a `/` between each two.
pub fn join_range(segments: &Vec<Vec<char>>, from: usize, to: usize) -> (joined: Vec<char>)
    requires
        from <= to <= segments.len(),
    ensures
        joined@ == join_segments(texts(segments@).subrange(from as int, to as int)),
{
    let mut joined: Vec<char> = Vec::new();
    let mut i: usize = from;
    while i < to
        invariant
            from <= i <= to <= segments.len(),
            joined@ == join_segments(texts(segments@).subrange(from as int, i as int)),
        decreases to - i,
    {
        let ghost seen = texts(segments@).subrange(from as int, i as int);
        let ghost next = texts(segments@).subrange(from as int, i + 1);
        proof {
            assert(next.drop_last() == seen);
            assert(next.last() == segments@[i as int]@);
        }
        if i > from {
            joined.push('/');
        }
        append_chars(&mut joined, &segments[i]);
        i = i + 1;
    }
    joined
}

/// Writes the segments one after another with a `/` between each two.
pub fn join_with_slash(segments: &Vec<Vec<char>>) -> (joined: Vec<char>)
    ensures
        joined@ == join_segments(texts(segments@)),
{
    proof {
        assert(texts(segments@).subrange(0, segments.len() as int) == texts(segments@));
    }
    join_range(segments, 0, segments.len())
}

/// Whether `path` begins with a separator.
pub fn path_is_absolute(path: &Vec<char>) -> (absolute: bool)
    ensures
        absolute == is_absolute(path@),
{
    path.len() > 0 && path[0] == '/'
}

/// Whether `component` is the root marker.
pub fn is_root_marker(component: &Vec<char>) -> (is: bool)
    ensures
        is == (component@ == root_marker()),
{
    let is = component.len() == 1 && component[0] == '/';
    proof {
        if is {
            assert(component@ =~= root_marker());
        } else {
            assert(root_marker().len() == 1 && root_marker()[0] == '/');
        }
    }
    is
}

/// Whether `piece` is the current-directory marker.
pub fn is_current_marker(piece: &Vec<char>) -> (is: bool)
    ensures
        is == (piece@ == current_marker()),
{
    let is = piece.len() == 1 && piece[0] == '.';
    proof {
        if is {
            assert(piece@ =~= current_marker());
        } else {
            assert(current_marker().len() == 1 && current_marker()[0] == '.');
        }
    }
    is
}

/// Whether `piece` is the parent marker.
pub fn is_parent_marker(piece: &Vec<char>) -> (is: bool)
    ensures
        is == (piece@ == parent_marker()),
{
    let is = piece.len() == 2 && piece[0] == '.' && piece[1] == '.';
    proof {
        if is {
            assert(piece@ =~= parent_marker());
        } else {
            assert(parent_marker().len() == 2 && parent_marker()[0] == '.' && parent_marker()[1]
                == '.');
        }
    }
    is
}

/// The components of `path`.
pub fn path_components(path: &Vec<char>) -> (parts: Vec<Vec<char>>)
    ensures
        texts(parts@) == components(path@),
{
    let pieces = split_path(path);
    proof {
        lemma_split_nonempty(path@);
    }
    let mut parts: Vec<Vec<char>> = Vec::new();
    if path_is_absolute(path) {
        let marker: Vec<char> = vec!['/'];
        assert(marker@ =~= root_marker());
        parts.push(marker);
    } else if is_current_marker(&pieces[0]) {
        let marker: Vec<char> = vec!['.'];
        assert(marker@ =~= current_marker());
        parts.push(marker);
    }
    proof {
        assert(named_pieces(texts(pieces@).take(0)) == Seq::<Seq<char>>::empty()) by {
            reveal(Seq::filter);
        }
        assert(texts(pieces@)[0] == pieces@[0]@);
        assert(texts(parts@) =~= leading(path@));
    }
    let mut i: usize = 0;
    while i < pieces.len()
        invariant
            i <= pieces.len(),
            texts(parts@) == leading(path@) + named_pieces(texts(pieces@).take(i as int)),
        decreases pieces.len() - i,
    {
        let ghost seen = texts(pieces@).take(i as int);
        let ghost before = texts(parts@);
        proof {
            assert(texts(pieces@).take(i + 1) == seen.push(pieces@[i as int]@));
            seen.lemma_filter_push(pieces@[i as int]@, |piece: Seq<char>| names_something(piece));
        }
        if pieces[i].len() > 0 && !is_current_marker(&pieces[i]) {
            let piece = copy_chars(&pieces[i]);
            proof {
                assert(piece@ == pieces@[i as int]@);
            }
            parts.push(piece);
            proof {
                assert(texts(parts@) == before.push(pieces@[i as int]@));
            }
        }
        i = i + 1;
    }
    proof {
        assert(texts(pieces@).take(pieces.len() as int) == texts(pieces@));
    }
    parts
}

/// `base` followed by `target`, as `join_paths` puts them together.
pub fn join_path_texts(base: &Vec<char>, target: &Vec<char>) -> (joined: Vec<char>)
    ensures
        joined@ == join_paths(base@, target@),
{
    let mut joined: Vec<char> = Vec::new();
    if !path_is_absolute(target) {
        append_chars(&mut joined, base);
        if base.len() > 0 && base[base.len() - 1] != '/' {
            joined.push('/');
        }
    }
    append_chars(&mut joined, target);
    joined
}

/// Takes the components from left to right, starting with nothing.
pub fn resolve_components(parts: &Vec<Vec<char>>) -> (stack: Vec<Vec<char>>)
    ensures
        texts(stack@) == resolve(texts(parts@)),
{
    let mut stack: Vec<Vec<char>> = Vec::new();
    let mut i: usize = 0;
    while i < parts.len()
        invariant
            i <= parts.len(),
            texts(stack@) == resolve(texts(parts@).take(i as int)),
        decreases parts.len() - i,
    {
        let ghost seen = texts(parts@).take(i as int);
        let ghost next = texts(parts@).take(i + 1);
        let ghost before = texts(stack@);
        proof {
            assert(next.drop_last() == seen);
            assert(next.last() == parts@[i as int]@);
        }
        if is_current_marker(&parts[i]) {
        } else if is_parent_marker(&parts[i]) {
            let _ = stack.pop();
            proof {
                if before.len() > 0 {
                    assert(texts(stack@) == before.drop_last());
                }
            }
        } else {
            let part = copy_chars(&parts[i]);
            proof {
                assert(part@ == parts@[i as int]@);
            }
            stack.push(part);
            proof {
                assert(texts(stack@) == before.push(parts@[i as int]@));
            }
        }
        i = i + 1;
    }
    proof {
        assert(texts(parts@).take(parts.len() as int) == texts(parts@));
    }
    stack
}

/// The path that `target` resolves to, seen from `current_dir`.
pub fn resolve_path(current_dir: &Vec<char>, target: &Vec<char>) -> (resolved: Vec<char>)
    ensures
        resolved@ == resolved_path(current_dir@, target@),
{
    let joined = join_path_texts(current_dir, target);
    let stack = resolve_components(&path_components(&joined));
    join_with_slash(&stack)
}

/// Whether `path` begins with the components of `base`.
pub fn begins_with_components(path: &Vec<Vec<char>>, base: &Vec<Vec<char>>) -> (begins: bool)
    ensures
        begins == texts(base@).is_prefix_of(texts(path@)),
{
    if base.len() > path.len() {
        return false;
    }
    let ghost front = texts(path@).subrange(0, base.len() as int);
    let mut i: usize = 0;
    while i < base.len()
        invariant
            i <= base.len() <= path.len(),
            front == texts(path@).subrange(0, base.len() as int),
            forall|j: int| 0 <= j < i ==> texts(base@)[j] == front[j],
        decreases base.len() - i,
    {
        if !same_chars(&base[i], &path[i]) {
            proof {
                assert(texts(base@)[i as int] != front[i as int]);
            }
            return false;
        }
        i = i + 1;
    }
    proof {
        assert(texts(base@) =~= front);
    }
    true
}

/// The path that has the components from position `from` up to, not
/// including, `to`.
pub fn path_from_range(parts: &Vec<Vec<char>>, from: usize, to: usize) -> (path: Vec<char>)
    requires
        from <= to <= parts.len(),
    ensures
        path@ == path_of(texts(parts@).subrange(from as int, to as int)),
{
    let ghost range = texts(parts@).subrange(from as int, to as int);
    if from < to && is_root_marker(&parts[from]) {
        proof {
            assert(range[0] == parts@[from as int]@);
            assert(range.skip(1) == texts(parts@).subrange(from + 1, to as int));
        }
        let mut path: Vec<char> = vec!['/'];
        assert(path@ =~= root_marker());
        append_chars(&mut path, &join_range(parts, from + 1, to));
        path
    } else {
        proof {
            if from < to {
                assert(range[0] == parts@[from as int]@);
            }
        }
        join_range(parts, from, to)
    }
}

/// The directory of the document `file`, relative to the content root `root`.
pub fn document_dir_of(file: &Vec<char>, root: &Vec<char>) -> (dir: Vec<char>)
    ensures
        dir@ == document_dir(file@, root@),
{
    let path = path_components(file);
    let base = path_components(root);
    let from: usize = if begins_with_components(&path, &base) {
        base.len()
    } else {
        0
    };
    let to: usize = if path.len() > from {
        path.len() - 1
    } else {
        path.len()
    };
    proof {
        let stripped = strip_base(texts(path@), texts(base@));
        assert(stripped == texts(path@).subrange(from as int, path.len() as int));
        assert(parent(stripped) == texts(path@).subrange(from as int, to as int));
    }
    path_from_range(&path, from, to)
}

/// The path that leads from `base` to `path`, if `path` begins with the
/// components of `base`.
pub fn relative_path(path: &Vec<char>, base: &Vec<char>) -> (relative: Option<Vec<char>>)
    ensures
        match relative {
            Some(found) => relative_to(path@, base@) == Some(found@),
            None => relative_to(path@, base@) is None,
        },
{
    let parts = path_components(path);
    let front = path_components(base);
    if begins_with_components(&parts, &front) {
        proof {
            assert(texts(parts@).skip(front.len() as int) == texts(parts@).subrange(
                front.len() as int,
                parts.len() as int,
            ));
        }
        Some(path_from_range(&parts, front.len(), parts.len()))
    } else {
        None
    }
}

/// The extension of `path`, if it has one.
pub fn path_extension(path: &Vec<char>) -> (found: Option<Vec<char>>)
    ensures
        match found {
            Some(ext) => extension(path@) == Some(ext@),
            None => extension(path@) is None,
        },
{
    let parts = path_components(path);
    if parts.len() == 0 {
        return None;
    }
    let name = &parts[parts.len() - 1];
    proof {
        assert(texts(parts@).last() == name@);
    }
    if is_root_marker(name) || is_current_marker(name) || is_parent_marker(name) {
        return None;
    }
    match find_last(name, '.') {
        Some(dot) => {
            if dot > 0 {
                Some(slice_chars(name, dot + 1, name.len()))
            } else {
                None
            }
        },
        None => None,
    }
}

} // verus!
