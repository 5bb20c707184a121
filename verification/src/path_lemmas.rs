//! What holds of splitting, joining and resolving paths.

use vstd::prelude::*;
use crate::paths::{
    components, current_marker, document_dir, is_absolute, join_paths, join_segments, leading,
    lemma_split_nonempty, named_pieces, names_something, parent, parent_marker, path_of, resolve,
    resolve_onto, resolve_step, resolved_path, resolved_segments, root_marker, split, strip_base,
};

verus! {

/// A segment that can stand between two separators: not empty, and without a
/// separator of its own.
pub open spec fn is_plain(segment: Seq<char>) -> bool {
    segment.len() > 0 && !segment.contains('/')
}

/// Components as a path has them: plain, but for a root marker in the first
/// place.
pub open spec fn well_formed(components: Seq<Seq<char>>) -> bool {
    forall|i: int|
        0 <= i < components.len() ==> is_plain(#[trigger] components[i]) || (i == 0
            && components[i] == root_marker())
}

/// Segments as resolution leaves them: well formed, and none of them the
/// current-directory or the parent marker.
pub open spec fn is_resolved(segments: Seq<Seq<char>>) -> bool {
    &&& well_formed(segments)
    &&& forall|i: int|
        0 <= i < segments.len() ==> #[trigger] segments[i] != current_marker() && segments[i]
            != parent_marker()
}

/// `count` parent markers in a row.
pub open spec fn parents(count: nat) -> Seq<Seq<char>> {
    Seq::new(count, |i: int| parent_marker())
}

/// The three markers differ from each other, and only the root marker holds a
/// separator.
pub proof fn lemma_markers()
    ensures
        root_marker() != current_marker(),
        root_marker() != parent_marker(),
        current_marker() != parent_marker(),
        root_marker().contains('/'),
        is_plain(current_marker()),
        is_plain(parent_marker()),
{
    assert(root_marker()[0] == '/');
    assert(current_marker()[0] == '.');
    assert(parent_marker().len() == 2);
    assert(parent_marker()[0] == '.' && parent_marker()[1] == '.');
}

/// Adding one piece adds it to the named pieces if it names something.
pub proof fn lemma_named_pieces_push(pieces: Seq<Seq<char>>, piece: Seq<char>)
    ensures
        named_pieces(pieces.push(piece)) == if names_something(piece) {
            named_pieces(pieces).push(piece)
        } else {
            named_pieces(pieces)
        },
{
    pieces.lemma_filter_push(piece, |piece: Seq<char>| names_something(piece));
}

/// The named pieces of two lists in a row are those of the first, then those
/// of the second.
pub proof fn lemma_named_pieces_add(first: Seq<Seq<char>>, second: Seq<Seq<char>>)
    ensures
        named_pieces(first + second) == named_pieces(first) + named_pieces(second),
{
    Seq::filter_distributes_over_add(first, second, |piece: Seq<char>| names_something(piece));
}

/// No piece is lost where every piece names something.
pub proof fn lemma_named_pieces_all(pieces: Seq<Seq<char>>)
    requires
        forall|i: int| 0 <= i < pieces.len() ==> names_something(#[trigger] pieces[i]),
    ensures
        named_pieces(pieces) == pieces,
    decreases pieces.len(),
{
    if pieces.len() == 0 {
        reveal(Seq::filter);
    } else {
        lemma_named_pieces_all(pieces.drop_last());
        lemma_named_pieces_push(pieces.drop_last(), pieces.last());
        assert(pieces.drop_last().push(pieces.last()) == pieces);
    }
}

/// The named pieces of separator-free pieces are plain and none is the
/// current-directory marker.
pub proof fn lemma_named_pieces_are_plain(pieces: Seq<Seq<char>>)
    requires
        forall|i: int| 0 <= i < pieces.len() ==> !(#[trigger] pieces[i]).contains('/'),
    ensures
        forall|j: int|
            0 <= j < named_pieces(pieces).len() ==> is_plain(#[trigger] named_pieces(pieces)[j])
                && named_pieces(pieces)[j] != current_marker(),
    decreases pieces.len(),
{
    if pieces.len() == 0 {
        reveal(Seq::filter);
    } else {
        lemma_named_pieces_are_plain(pieces.drop_last());
        lemma_named_pieces_push(pieces.drop_last(), pieces.last());
        assert(pieces.drop_last().push(pieces.last()) == pieces);
    }
}

/// No piece of a split holds a separator.
pub proof fn lemma_split_pieces_hold_no_separator(path: Seq<char>)
    ensures
        forall|i: int| 0 <= i < split(path).len() ==> !(#[trigger] split(path)[i]).contains('/'),
    decreases path.len(),
{
    if path.len() > 0 {
        let before = split(path.drop_last());
        lemma_split_pieces_hold_no_separator(path.drop_last());
        lemma_split_nonempty(path.drop_last());
        if path.last() != '/' {
            let grown = before.last().push(path.last());
            assert forall|k: int| 0 <= k < grown.len() implies grown[k] != '/' by {
                if k < before.last().len() {
                    assert(before.last().contains(grown[k]));
                }
            }
        }
    }
}

/// A text without a separator is its own single piece.
pub proof fn lemma_split_plain(text: Seq<char>)
    requires
        !text.contains('/'),
    ensures
        split(text) == seq![text],
    decreases text.len(),
{
    if text.len() == 0 {
        assert(text == Seq::<char>::empty());
    } else {
        let front = text.drop_last();
        assert forall|k: int| 0 <= k < front.len() implies front[k] != '/' by {
            assert(text[k] == front[k]);
        }
        assert(text[text.len() - 1] != '/');
        lemma_split_plain(front);
        assert(front.push(text.last()) == text);
        assert(seq![front].drop_last().push(seq![front].last().push(text.last())) == seq![text]);
    }
}

/// The pieces of two texts with a separator between them are the pieces of
/// the first, then the pieces of the second.
pub proof fn lemma_split_around_separator(first: Seq<char>, second: Seq<char>)
    ensures
        split(first.push('/') + second) == split(first) + split(second),
    decreases second.len(),
{
    let whole = first.push('/') + second;
    if second.len() == 0 {
        assert(whole == first.push('/'));
        assert(whole.drop_last() == first);
        assert(split(first).push(Seq::<char>::empty()) == split(first) + split(second));
    } else {
        let shorter = second.drop_last();
        assert(whole.drop_last() == first.push('/') + shorter);
        assert(whole.last() == second.last());
        lemma_split_around_separator(first, shorter);
        lemma_split_nonempty(shorter);
        let before = split(first) + split(shorter);
        if second.last() == '/' {
            assert(before.push(Seq::<char>::empty()) == split(first) + split(second));
        } else {
            assert(before.drop_last() == split(first) + split(shorter).drop_last());
            assert(before.last() == split(shorter).last());
            assert(before.drop_last().push(before.last().push(second.last())) == split(first)
                + split(second));
        }
    }
}

/// The components of a path are well formed, and the current-directory marker
/// can only be the first of them.
pub proof fn lemma_components_well_formed(path: Seq<char>)
    ensures
        well_formed(components(path)),
        forall|i: int|
            0 < i < components(path).len() ==> #[trigger] components(path)[i] != current_marker(),
{
    lemma_markers();
    lemma_split_pieces_hold_no_separator(path);
    lemma_named_pieces_are_plain(split(path));
    let named = named_pieces(split(path));
    let all = components(path);
    assert forall|i: int| 0 <= i < all.len() implies (is_plain(#[trigger] all[i]) || (i == 0
        && all[i] == root_marker())) && (i > 0 ==> all[i] != current_marker()) by {
        if i >= leading(path).len() {
            assert(all[i] == named[i - leading(path).len()]);
        }
    }
}

/// Taking components one list after another is taking them all in a row.
pub proof fn lemma_resolve_onto_add(
    stack: Seq<Seq<char>>,
    first: Seq<Seq<char>>,
    second: Seq<Seq<char>>,
)
    ensures
        resolve_onto(stack, first + second) == resolve_onto(resolve_onto(stack, first), second),
    decreases second.len(),
{
    if second.len() == 0 {
        assert(first + second == first);
    } else {
        assert((first + second).drop_last() == first + second.drop_last());
        assert((first + second).last() == second.last());
        lemma_resolve_onto_add(stack, first, second.drop_last());
    }
}

/// Resolution leaves resolved segments: from a resolved start and well-formed
/// components that bring no root marker, what is left is resolved.
pub proof fn lemma_resolve_onto_is_resolved(stack: Seq<Seq<char>>, components: Seq<Seq<char>>)
    requires
        is_resolved(stack),
        forall|i: int| 0 <= i < components.len() ==> is_plain(#[trigger] components[i]),
    ensures
        is_resolved(resolve_onto(stack, components)),
    decreases components.len(),
{
    if components.len() > 0 {
        let front = components.drop_last();
        assert forall|i: int| 0 <= i < front.len() implies is_plain(#[trigger] front[i]) by {
            assert(front[i] == components[i]);
        }
        lemma_resolve_onto_is_resolved(stack, front);
        let before = resolve_onto(stack, front);
        let after = resolve_step(before, components.last());
        assert(is_plain(components[components.len() - 1]));
        assert forall|i: int| 0 <= i < after.len() implies (is_plain(#[trigger] after[i]) || (i
            == 0 && after[i] == root_marker())) && after[i] != current_marker() && after[i]
            != parent_marker() by {
            if i < before.len() {
                assert(after[i] == before[i]);
            }
        }
    }
}

/// The resolved segments of any path hold no `.` and no `..`; each is a plain
/// name, but for a root marker that can only come first.
pub proof fn lemma_resolved_segments_are_resolved(current_dir: Seq<char>, target: Seq<char>)
    ensures
        is_resolved(resolved_segments(current_dir, target)),
{
    let all = components(join_paths(current_dir, target));
    lemma_components_well_formed(join_paths(current_dir, target));
    lemma_markers();
    if all.len() > 0 {
        let first = seq![all[0]];
        let rest = all.skip(1);
        assert(all == first + rest);
        lemma_resolve_onto_add(Seq::<Seq<char>>::empty(), first, rest);
        let start = resolve_onto(Seq::<Seq<char>>::empty(), first);
        assert(first.drop_last() == Seq::<Seq<char>>::empty());
        assert(resolve_onto(Seq::<Seq<char>>::empty(), first.drop_last()) == Seq::<
            Seq<char>,
        >::empty());
        assert(start == resolve_step(Seq::<Seq<char>>::empty(), all[0]));
        assert(is_resolved(start));
        assert forall|i: int| 0 <= i < rest.len() implies is_plain(#[trigger] rest[i]) by {
            assert(rest[i] == all[i + 1]);
        }
        lemma_resolve_onto_is_resolved(start, rest);
    }
}

/// A parent marker with nothing before it is dropped: `count` of them take
/// the last `count` segments away, and all of them where there are fewer.
pub proof fn lemma_surplus_parents_are_dropped(stack: Seq<Seq<char>>, count: nat)
    ensures
        resolve_onto(stack, parents(count)) == if count <= stack.len() {
            stack.take(stack.len() - count)
        } else {
            Seq::<Seq<char>>::empty()
        },
    decreases count,
{
    lemma_markers();
    if count == 0 {
        assert(stack.take(stack.len() as int) == stack);
    } else {
        let fewer = (count - 1) as nat;
        assert(parents(count).drop_last() == parents(fewer));
        assert(parents(count).last() == parent_marker());
        lemma_surplus_parents_are_dropped(stack, fewer);
        if fewer < stack.len() {
            assert(stack.take(stack.len() - fewer).drop_last() == stack.take(stack.len() - count));
        }
    }
}

/// Resolved segments resolve to themselves.
pub proof fn lemma_resolve_of_resolved(segments: Seq<Seq<char>>)
    requires
        is_resolved(segments),
    ensures
        resolve(segments) == segments,
    decreases segments.len(),
{
    if segments.len() > 0 {
        let front = segments.drop_last();
        assert forall|i: int| 0 <= i < front.len() implies (is_plain(#[trigger] front[i]) || (i
            == 0 && front[i] == root_marker())) && front[i] != current_marker() && front[i]
            != parent_marker() by {
            assert(front[i] == segments[i]);
        }
        lemma_resolve_of_resolved(front);
        assert(segments[segments.len() - 1] != current_marker());
        assert(front.push(segments.last()) == segments);
    }
}

/// A joined text begins with its first segment.
pub proof fn lemma_join_begins_with_first(segments: Seq<Seq<char>>)
    requires
        segments.len() > 0,
    ensures
        segments[0].is_prefix_of(join_segments(segments)),
    decreases segments.len(),
{
    if segments.len() > 1 {
        lemma_join_begins_with_first(segments.drop_last());
        assert(segments.drop_last()[0] == segments[0]);
    }
}

/// The pieces of a joined text are the pieces of its first segment, then the
/// other segments, where none of those holds a separator.
pub proof fn lemma_split_of_join(segments: Seq<Seq<char>>)
    requires
        segments.len() > 0,
        forall|i: int| 0 < i < segments.len() ==> !(#[trigger] segments[i]).contains('/'),
    ensures
        split(join_segments(segments)) == split(segments[0]) + segments.skip(1),
    decreases segments.len(),
{
    if segments.len() == 1 {
        assert(segments.skip(1) == Seq::<Seq<char>>::empty());
        assert(split(segments[0]) + segments.skip(1) == split(segments[0]));
    } else {
        let front = segments.drop_last();
        assert forall|i: int| 0 < i < front.len() implies !(#[trigger] front[i]).contains('/') by {
            assert(front[i] == segments[i]);
        }
        lemma_split_of_join(front);
        lemma_split_around_separator(join_segments(front), segments.last());
        assert(!segments[segments.len() - 1].contains('/'));
        lemma_split_plain(segments.last());
        assert(front[0] == segments[0]);
        assert(front.skip(1) + seq![segments.last()] == segments.skip(1));
        assert((split(segments[0]) + front.skip(1)) + seq![segments.last()] == split(segments[0])
            + segments.skip(1));
    }
}

/// Well-formed segments without a current-directory marker, joined and taken
/// apart again, are the same segments. Resolved segments are of that kind.
pub proof fn lemma_components_of_join(segments: Seq<Seq<char>>)
    requires
        well_formed(segments),
        forall|i: int| 0 <= i < segments.len() ==> #[trigger] segments[i] != current_marker(),
    ensures
        components(join_segments(segments)) == segments,
{
    lemma_markers();
    let joined = join_segments(segments);
    if segments.len() == 0 {
        assert(named_pieces(split(joined)) == Seq::<Seq<char>>::empty()) by {
            reveal_with_fuel(Seq::filter, 2);
            assert(split(joined) == seq![Seq::<char>::empty()]);
            assert(split(joined).drop_last() == Seq::<Seq<char>>::empty());
        }
        assert(split(joined)[0].len() == 0);
        assert(leading(joined) + Seq::<Seq<char>>::empty() == Seq::<Seq<char>>::empty());
    } else {
        let rest = segments.skip(1);
        assert forall|i: int| 0 < i < segments.len() implies !(#[trigger] segments[i]).contains(
            '/',
        ) by {}
        lemma_split_of_join(segments);
        lemma_join_begins_with_first(segments);
        assert forall|i: int| 0 <= i < rest.len() implies names_something(#[trigger] rest[i]) by {
            assert(rest[i] == segments[i + 1]);
        }
        lemma_named_pieces_all(rest);
        lemma_named_pieces_add(split(segments[0]), rest);
        assert(segments[0].len() > 0);
        assert(joined[0] == joined.subrange(0, segments[0].len() as int)[0]);
        assert(joined[0] == segments[0][0]);
        if segments[0] == root_marker() {
            let nothing = Seq::<char>::empty();
            assert(segments[0] == nothing.push('/') + nothing);
            lemma_split_around_separator(nothing, nothing);
            assert(split(segments[0]) == seq![nothing, nothing]);
            assert(named_pieces(split(segments[0])) == Seq::<Seq<char>>::empty()) by {
                reveal_with_fuel(Seq::filter, 3);
                assert(seq![nothing, nothing].drop_last() == seq![nothing]);
                assert(seq![nothing].drop_last() == Seq::<Seq<char>>::empty());
            }
            assert(is_absolute(joined));
            assert(Seq::<Seq<char>>::empty() + rest == rest);
            assert(seq![root_marker()] + rest == segments);
        } else {
            assert(is_plain(segments[0]));
            lemma_split_plain(segments[0]);
            assert(segments[0].contains(segments[0][0]));
            assert(!is_absolute(joined));
            assert(names_something(segments[0]));
            assert(seq![segments[0]] == Seq::<Seq<char>>::empty().push(segments[0]));
            lemma_named_pieces_push(Seq::<Seq<char>>::empty(), segments[0]);
            assert(named_pieces(Seq::<Seq<char>>::empty()) == Seq::<Seq<char>>::empty()) by {
                reveal(Seq::filter);
            }
            assert(split(joined)[0] == segments[0]);
            assert(leading(joined) == Seq::<Seq<char>>::empty());
            assert(seq![segments[0]] + rest == segments);
            assert(Seq::<Seq<char>>::empty() + segments == segments);
        }
    }
}

/// One pass is enough: a resolved path, resolved again from the root, is the
/// same path.
pub proof fn lemma_resolution_is_stable(current_dir: Seq<char>, target: Seq<char>)
    ensures
        resolved_segments(Seq::<char>::empty(), resolved_path(current_dir, target))
            == resolved_segments(current_dir, target),
        resolved_path(Seq::<char>::empty(), resolved_path(current_dir, target)) == resolved_path(
            current_dir,
            target,
        ),
{
    let segments = resolved_segments(current_dir, target);
    let once = join_segments(segments);
    lemma_resolved_segments_are_resolved(current_dir, target);
    lemma_components_of_join(segments);
    lemma_resolve_of_resolved(segments);
    assert(Seq::<char>::empty() + once == once);
    assert(join_paths(Seq::<char>::empty(), once) == once);
}

/// The components of a path apart from a current-directory marker at its
/// start: the root marker of an absolute path, then the named pieces.
pub open spec fn walked(path: Seq<char>) -> Seq<Seq<char>> {
    if is_absolute(path) {
        seq![root_marker()] + named_pieces(split(path))
    } else {
        named_pieces(split(path))
    }
}

/// A current-directory marker at the start of a path changes nothing in what
/// the path resolves to.
pub proof fn lemma_resolve_skips_leading_marker(stack: Seq<Seq<char>>, path: Seq<char>)
    ensures
        resolve_onto(stack, components(path)) == resolve_onto(stack, walked(path)),
{
    let named = named_pieces(split(path));
    if !is_absolute(path) && split(path)[0] == current_marker() {
        let marker = seq![current_marker()];
        lemma_resolve_onto_add(stack, marker, named);
        assert(marker.drop_last() == Seq::<Seq<char>>::empty());
        assert(resolve_onto(stack, marker.drop_last()) == stack);
        assert(resolve_onto(stack, marker) == stack);
    } else if !is_absolute(path) {
        assert(Seq::<Seq<char>>::empty() + named == named);
    }
}

/// What is walked through in a directory joined with a relative target: what
/// is walked through in the directory, then what is walked through in the
/// target.
pub proof fn lemma_walked_of_join(current_dir: Seq<char>, target: Seq<char>)
    requires
        !is_absolute(target),
    ensures
        walked(join_paths(current_dir, target)) == walked(current_dir) + walked(target),
{
    let joined = join_paths(current_dir, target);
    let nothing = Seq::<Seq<char>>::empty();
    if current_dir.len() == 0 {
        assert(current_dir + target == target);
        assert(named_pieces(split(current_dir)) == nothing) by {
            reveal_with_fuel(Seq::filter, 2);
            assert(split(current_dir) == seq![Seq::<char>::empty()]);
            assert(split(current_dir).drop_last() == nothing);
        }
        assert(nothing + walked(target) == walked(target));
    } else if current_dir.last() != '/' {
        lemma_split_around_separator(current_dir, target);
        lemma_named_pieces_add(split(current_dir), split(target));
        assert(joined[0] == current_dir[0]);
        if is_absolute(current_dir) {
            assert((seq![root_marker()] + named_pieces(split(current_dir))) + named_pieces(
                split(target),
            ) == seq![root_marker()] + (named_pieces(split(current_dir)) + named_pieces(
                split(target),
            )));
        }
    } else {
        let front = current_dir.drop_last();
        assert(front.push('/') == current_dir);
        lemma_split_around_separator(front, target);
        lemma_named_pieces_add(split(front), split(target));
        lemma_named_pieces_push(split(front), Seq::<char>::empty());
        assert(split(current_dir) == split(front).push(Seq::<char>::empty()));
        assert(joined[0] == current_dir[0]);
        if is_absolute(current_dir) {
            assert((seq![root_marker()] + named_pieces(split(current_dir))) + named_pieces(
                split(target),
            ) == seq![root_marker()] + (named_pieces(split(current_dir)) + named_pieces(
                split(target),
            )));
        }
    }
}

/// Resolution walks through the segments of the directory and then through
/// those of the target, from left to right; an absolute target is walked
/// through alone.
pub proof fn lemma_resolution_walks_directory_then_target(
    current_dir: Seq<char>,
    target: Seq<char>,
)
    ensures
        resolved_segments(current_dir, target) == if is_absolute(target) {
            resolve(components(target))
        } else {
            resolve_onto(resolve(components(current_dir)), components(target))
        },
{
    if !is_absolute(target) {
        let nothing = Seq::<Seq<char>>::empty();
        let joined = join_paths(current_dir, target);
        lemma_resolve_skips_leading_marker(nothing, joined);
        lemma_walked_of_join(current_dir, target);
        lemma_resolve_onto_add(nothing, walked(current_dir), walked(target));
        lemma_resolve_skips_leading_marker(nothing, current_dir);
        lemma_resolve_skips_leading_marker(resolve(components(current_dir)), target);
    }
}

/// The target `.` names the directory itself: it resolves to what the
/// directory resolves to, as the empty target does.
pub proof fn lemma_current_directory_target(current_dir: Seq<char>)
    ensures
        resolved_segments(current_dir, current_marker()) == resolve(components(current_dir)),
        resolved_segments(current_dir, Seq::<char>::empty()) == resolve(components(current_dir)),
{
    let nothing = Seq::<char>::empty();
    let stack = resolve(components(current_dir));
    lemma_markers();
    assert(current_marker()[0] == '.');
    lemma_resolution_walks_directory_then_target(current_dir, current_marker());
    lemma_resolution_walks_directory_then_target(current_dir, nothing);
    lemma_resolve_skips_leading_marker(stack, current_marker());
    lemma_resolve_skips_leading_marker(stack, nothing);
    lemma_split_plain(current_marker());
    assert(named_pieces(split(current_marker())) == Seq::<Seq<char>>::empty()) by {
        reveal_with_fuel(Seq::filter, 2);
        assert(seq![current_marker()].drop_last() == Seq::<Seq<char>>::empty());
    }
    assert(named_pieces(split(nothing)) == Seq::<Seq<char>>::empty()) by {
        reveal_with_fuel(Seq::filter, 2);
        assert(split(nothing) == seq![nothing]);
        assert(seq![nothing].drop_last() == Seq::<Seq<char>>::empty());
    }
}

/// Splitting loses nothing: the pieces of a path, joined, are the path.
pub proof fn lemma_join_of_split(path: Seq<char>)
    ensures
        join_segments(split(path)) == path,
    decreases path.len(),
{
    if path.len() == 0 {
        assert(split(path)[0] == path);
    } else {
        let front = path.drop_last();
        let before = split(front);
        lemma_join_of_split(front);
        lemma_split_nonempty(front);
        assert(front.push(path.last()) == path);
        if path.last() == '/' {
            let pieces = before.push(Seq::<char>::empty());
            assert(pieces.drop_last() == before);
            assert(join_segments(before).push('/') + Seq::<char>::empty() == join_segments(
                before,
            ).push('/'));
        } else {
            let grown = before.last().push(path.last());
            let pieces = before.drop_last().push(grown);
            assert(pieces.drop_last() == before.drop_last());
            if before.len() > 1 {
                let head = join_segments(before.drop_last()).push('/');
                assert(head + grown == (head + before.last()).push(path.last()));
            }
        }
    }
}

/// A directory written with names only resolves to its own components: with
/// no parent marker in it there is nothing to take away.
pub proof fn lemma_plain_directory_resolves_to_itself(current_dir: Seq<char>)
    requires
        forall|i: int|
            0 <= i < components(current_dir).len() ==> #[trigger] components(current_dir)[i]
                != current_marker() && components(current_dir)[i] != parent_marker(),
    ensures
        resolved_segments(current_dir, current_marker()) == components(current_dir),
{
    lemma_components_well_formed(current_dir);
    lemma_resolve_of_resolved(components(current_dir));
    lemma_current_directory_target(current_dir);
}

/// Every character of the text is one of `allowed`, or a separator.
pub open spec fn drawn_from(text: Seq<char>, allowed: Set<char>) -> bool {
    forall|k: int| 0 <= k < text.len() ==> allowed.contains(#[trigger] text[k]) || text[k] == '/'
}

/// Every segment is drawn from `allowed`.
pub open spec fn all_drawn_from(segments: Seq<Seq<char>>, allowed: Set<char>) -> bool {
    forall|i: int| 0 <= i < segments.len() ==> drawn_from(#[trigger] segments[i], allowed)
}

/// The pieces of a path hold no character that the path does not hold.
pub proof fn lemma_split_draws_from_path(path: Seq<char>, allowed: Set<char>)
    requires
        drawn_from(path, allowed),
    ensures
        all_drawn_from(split(path), allowed),
    decreases path.len(),
{
    if path.len() > 0 {
        let front = path.drop_last();
        assert forall|k: int| 0 <= k < front.len() implies allowed.contains(#[trigger] front[k])
            || front[k] == '/' by {
            assert(front[k] == path[k]);
        }
        lemma_split_draws_from_path(front, allowed);
        lemma_split_nonempty(front);
        let before = split(front);
        let after = split(path);
        assert(allowed.contains(path[path.len() - 1]) || path[path.len() - 1] == '/');
        assert forall|i: int| 0 <= i < after.len() implies drawn_from(
            #[trigger] after[i],
            allowed,
        ) by {
            if i < before.len() - 1 {
                assert(after[i] == before[i]);
            } else if path.last() != '/' {
                let grown = before.last().push(path.last());
                assert(drawn_from(before[before.len() - 1], allowed));
                assert forall|k: int| 0 <= k < grown.len() implies allowed.contains(
                    #[trigger] grown[k],
                ) || grown[k] == '/' by {
                    if k < before.last().len() {
                        assert(grown[k] == before.last()[k]);
                    }
                }
            } else if i == before.len() - 1 {
                assert(after[i] == before[i]);
            }
        }
    }
}

/// The named pieces are among the pieces.
pub proof fn lemma_named_pieces_draw_from_pieces(pieces: Seq<Seq<char>>, allowed: Set<char>)
    requires
        all_drawn_from(pieces, allowed),
    ensures
        all_drawn_from(named_pieces(pieces), allowed),
    decreases pieces.len(),
{
    if pieces.len() == 0 {
        reveal(Seq::filter);
    } else {
        let front = pieces.drop_last();
        assert forall|i: int| 0 <= i < front.len() implies drawn_from(
            #[trigger] front[i],
            allowed,
        ) by {
            assert(front[i] == pieces[i]);
        }
        lemma_named_pieces_draw_from_pieces(front, allowed);
        lemma_named_pieces_push(front, pieces.last());
        assert(front.push(pieces.last()) == pieces);
        assert(drawn_from(pieces[pieces.len() - 1], allowed));
    }
}

/// The components of a path hold no character that the path does not hold,
/// but for the separator of the root marker.
pub proof fn lemma_components_draw_from_path(path: Seq<char>, allowed: Set<char>)
    requires
        drawn_from(path, allowed),
    ensures
        all_drawn_from(components(path), allowed),
{
    lemma_split_draws_from_path(path, allowed);
    lemma_named_pieces_draw_from_pieces(split(path), allowed);
    lemma_split_nonempty(path);
    let named = named_pieces(split(path));
    let all = components(path);
    assert forall|i: int| 0 <= i < all.len() implies drawn_from(#[trigger] all[i], allowed) by {
        if i < leading(path).len() {
            if !is_absolute(path) {
                assert(drawn_from(split(path)[0], allowed));
            }
        } else {
            assert(all[i] == named[i - leading(path).len()]);
        }
    }
}

/// Resolution keeps segments as they are: what is left is drawn from what
/// the start and the components are drawn from.
pub proof fn lemma_resolve_onto_draws_from_components(
    stack: Seq<Seq<char>>,
    components: Seq<Seq<char>>,
    allowed: Set<char>,
)
    requires
        all_drawn_from(stack, allowed),
        all_drawn_from(components, allowed),
    ensures
        all_drawn_from(resolve_onto(stack, components), allowed),
    decreases components.len(),
{
    if components.len() > 0 {
        let front = components.drop_last();
        assert forall|i: int| 0 <= i < front.len() implies drawn_from(
            #[trigger] front[i],
            allowed,
        ) by {
            assert(front[i] == components[i]);
        }
        lemma_resolve_onto_draws_from_components(stack, front, allowed);
        let before = resolve_onto(stack, front);
        let after = resolve_onto(stack, components);
        assert(drawn_from(components[components.len() - 1], allowed));
        assert forall|i: int| 0 <= i < after.len() implies drawn_from(
            #[trigger] after[i],
            allowed,
        ) by {
            if i < before.len() {
                assert(after[i] == before[i]);
            }
        }
    }
}

/// Joining adds separators and nothing else.
pub proof fn lemma_join_draws_from_segments(segments: Seq<Seq<char>>, allowed: Set<char>)
    requires
        all_drawn_from(segments, allowed),
    ensures
        drawn_from(join_segments(segments), allowed),
    decreases segments.len(),
{
    if segments.len() == 1 {
        assert(drawn_from(segments[0], allowed));
    } else if segments.len() > 1 {
        let front = segments.drop_last();
        assert forall|i: int| 0 <= i < front.len() implies drawn_from(
            #[trigger] front[i],
            allowed,
        ) by {
            assert(front[i] == segments[i]);
        }
        lemma_join_draws_from_segments(front, allowed);
        assert(drawn_from(segments[segments.len() - 1], allowed));
        let head = join_segments(front).push('/');
        let joined = head + segments.last();
        assert forall|k: int| 0 <= k < joined.len() implies allowed.contains(#[trigger] joined[k])
            || joined[k] == '/' by {
            if k < join_segments(front).len() {
                assert(joined[k] == join_segments(front)[k]);
            } else if k >= head.len() {
                assert(joined[k] == segments.last()[k - head.len()]);
            }
        }
    }
}

/// A resolved path holds no character that neither the directory nor the
/// target holds, but for separators.
pub proof fn lemma_resolved_path_draws_from_inputs(
    current_dir: Seq<char>,
    target: Seq<char>,
    allowed: Set<char>,
)
    requires
        drawn_from(current_dir, allowed),
        drawn_from(target, allowed),
    ensures
        drawn_from(resolved_path(current_dir, target), allowed),
{
    let joined = join_paths(current_dir, target);
    assert forall|k: int| 0 <= k < joined.len() implies allowed.contains(#[trigger] joined[k])
        || joined[k] == '/' by {
        if !is_absolute(target) {
            if k < current_dir.len() {
                assert(joined[k] == current_dir[k]);
            } else if current_dir.len() > 0 && current_dir.last() != '/' {
                if k > current_dir.len() {
                    assert(joined[k] == target[k - current_dir.len() - 1]);
                }
            } else {
                assert(joined[k] == target[k - current_dir.len()]);
            }
        }
    }
    lemma_components_draw_from_path(joined, allowed);
    lemma_resolve_onto_draws_from_components(
        Seq::<Seq<char>>::empty(),
        components(joined),
        allowed,
    );
    lemma_join_draws_from_segments(resolved_segments(current_dir, target), allowed);
}

/// The directory of a document holds no character that the path of its file
/// does not hold, but for separators.
pub proof fn lemma_document_dir_draws_from_file(
    file: Seq<char>,
    root: Seq<char>,
    allowed: Set<char>,
)
    requires
        drawn_from(file, allowed),
    ensures
        drawn_from(document_dir(file, root), allowed),
{
    lemma_components_draw_from_path(file, allowed);
    let all = components(file);
    let stripped = strip_base(all, components(root));
    let offset = all.len() - stripped.len();
    let kept = parent(stripped);
    assert forall|i: int| 0 <= i < kept.len() implies drawn_from(#[trigger] kept[i], allowed) by {
        assert(kept[i] == all[i + offset]);
    }
    if kept.len() > 0 && kept[0] == root_marker() {
        let rest = kept.skip(1);
        assert forall|i: int| 0 <= i < rest.len() implies drawn_from(
            #[trigger] rest[i],
            allowed,
        ) by {
            assert(rest[i] == kept[i + 1]);
        }
        lemma_join_draws_from_segments(rest, allowed);
        let path = path_of(kept);
        assert forall|k: int| 0 <= k < path.len() implies allowed.contains(#[trigger] path[k])
            || path[k] == '/' by {
            if k >= 1 {
                assert(path[k] == join_segments(rest)[k - 1]);
            }
        }
    } else {
        lemma_join_draws_from_segments(kept, allowed);
    }
}

/// Every segment is plain.
pub open spec fn all_plain(segments: Seq<Seq<char>>) -> bool {
    forall|i: int| 0 <= i < segments.len() ==> is_plain(#[trigger] segments[i])
}

/// Resolution makes no root marker: from plain segments and plain components
/// plain segments are left.
pub proof fn lemma_resolve_onto_keeps_plain(stack: Seq<Seq<char>>, components: Seq<Seq<char>>)
    requires
        all_plain(stack),
        all_plain(components),
    ensures
        all_plain(resolve_onto(stack, components)),
    decreases components.len(),
{
    if components.len() > 0 {
        let front = components.drop_last();
        assert forall|i: int| 0 <= i < front.len() implies is_plain(#[trigger] front[i]) by {
            assert(front[i] == components[i]);
        }
        lemma_resolve_onto_keeps_plain(stack, front);
        let before = resolve_onto(stack, front);
        let after = resolve_onto(stack, components);
        assert(is_plain(components[components.len() - 1]));
        assert forall|i: int| 0 <= i < after.len() implies is_plain(#[trigger] after[i]) by {
            if i < before.len() {
                assert(after[i] == before[i]);
            }
        }
    }
}

/// A resolved path has no separator at its end, unless it is the bare root,
/// and none at its start, unless an absolute path was resolved.
pub proof fn lemma_resolved_path_has_no_stray_separator(current_dir: Seq<char>, target: Seq<char>)
    ensures
        resolved_path(current_dir, target).len() > 0 && resolved_path(current_dir, target).last()
            == '/' ==> resolved_path(current_dir, target) == root_marker(),
        resolved_path(current_dir, target).len() > 0 && resolved_path(current_dir, target)[0]
            == '/' ==> is_absolute(join_paths(current_dir, target)),
{
    let joined = join_paths(current_dir, target);
    let segments = resolved_segments(current_dir, target);
    let path = resolved_path(current_dir, target);
    lemma_markers();
    lemma_resolved_segments_are_resolved(current_dir, target);
    if segments.len() > 0 {
        let last = segments[segments.len() - 1];
        if segments.len() > 1 {
            assert(is_plain(last));
            assert(path.last() == last[last.len() - 1]);
            assert(last.contains(last[last.len() - 1]));
        } else if is_plain(last) {
            assert(last.contains(last[last.len() - 1]));
        }
        lemma_join_begins_with_first(segments);
        assert(path[0] == path.subrange(0, segments[0].len() as int)[0]);
        if !is_absolute(joined) {
            lemma_components_well_formed(joined);
            let all = components(joined);
            assert forall|i: int| 0 <= i < all.len() implies is_plain(#[trigger] all[i]) by {
                if i == 0 && all[i] == root_marker() {
                    if leading(joined).len() > 0 {
                        assert(all[0] == leading(joined)[0]);
                    } else {
                        lemma_split_pieces_hold_no_separator(joined);
                        lemma_named_pieces_are_plain(split(joined));
                        assert(all[0] == named_pieces(split(joined))[0]);
                    }
                }
            }
            lemma_resolve_onto_keeps_plain(Seq::<Seq<char>>::empty(), all);
            assert(is_plain(segments[0]));
            assert(segments[0].contains(segments[0][0]));
        }
    }
}

/// `count` parent markers written as a path: `..`, `../..` and so on.
pub open spec fn climb(count: nat) -> Seq<char> {
    join_segments(parents(count))
}

/// Parent markers are plain segments.
pub proof fn lemma_parents_are_plain(count: nat)
    ensures
        well_formed(parents(count)),
        forall|i: int|
            0 <= i < parents(count).len() ==> #[trigger] parents(count)[i] != current_marker(),
{
    let markers = parents(count);
    lemma_markers();
    assert forall|i: int| 0 <= i < markers.len() implies is_plain(#[trigger] markers[i])
        && markers[i] != current_marker() by {
        assert(markers[i] == parent_marker());
    }
}

/// A path that only climbs is relative.
pub proof fn lemma_climb_is_relative(count: nat)
    ensures
        !is_absolute(climb(count)),
{
    if count > 0 {
        let markers = parents(count);
        let joined = climb(count);
        lemma_join_begins_with_first(markers);
        assert(markers[0] == parent_marker());
        assert(parent_marker()[0] == '.');
        assert(joined.subrange(0, 2)[0] == joined[0]);
    }
}

/// The components of a path that only climbs are its parent markers.
pub proof fn lemma_components_of_climb(count: nat)
    ensures
        components(climb(count)) == parents(count),
{
    lemma_parents_are_plain(count);
    lemma_components_of_join(parents(count));
}

/// A target that only climbs takes one segment of the resolved directory
/// away for each `..`; those that are left once the root is reached are
/// dropped, and the result is the empty path.
pub proof fn lemma_climbing_stops_at_the_root(current_dir: Seq<char>, count: nat)
    ensures
        count <= resolve(components(current_dir)).len() ==> resolved_segments(
            current_dir,
            climb(count),
        ) == resolve(components(current_dir)).take(
            resolve(components(current_dir)).len() - count,
        ),
        count >= resolve(components(current_dir)).len() ==> resolved_path(
            current_dir,
            climb(count),
        ) == Seq::<char>::empty(),
{
    let stack = resolve(components(current_dir));
    let reached = resolved_segments(current_dir, climb(count));
    lemma_components_of_climb(count);
    lemma_climb_is_relative(count);
    assert(reached == resolve_onto(stack, parents(count))) by {
        lemma_resolution_walks_directory_then_target(current_dir, climb(count));
    }
    lemma_surplus_parents_are_dropped(stack, count);
    if count >= stack.len() {
        assert(reached == Seq::<Seq<char>>::empty()) by {
            assert(stack.take(0) == Seq::<Seq<char>>::empty());
        }
    }
}

} // verus!
