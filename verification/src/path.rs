//! Paths: slash-delimited strings that name a node.

use vstd::prelude::*;
use crate::tree::path_view;

verus! {

/// `String::push` appends the character to the end of the string.
pub assume_specification[ String::push ](s: &mut String, c: char)
    ensures
        final(s)@ == old(s)@.push(c),
;

/// A finished segment, as a list of segments: none if it is empty.
pub open spec fn finished(pending: Seq<char>) -> Seq<Seq<char>> {
    if pending.len() == 0 {
        Seq::empty()
    } else {
        seq![pending]
    }
}

/// The segments of what is left of a path, read from the left, where
/// `pending` holds the characters of the segment that was begun.
pub open spec fn segments_after(pending: Seq<char>, rest: Seq<char>) -> Seq<Seq<char>>
    decreases rest.len(),
{
    if rest.len() == 0 {
        finished(pending)
    } else if rest[0] == '/' {
        finished(pending) + segments_after(Seq::empty(), rest.skip(1))
    } else {
        segments_after(pending.push(rest[0]), rest.skip(1))
    }
}

/// The segments of a path: the maximal runs of characters other than `/`,
/// from left to right. Empty segments are dropped, so a path of slashes
/// only, like the empty path, has no segment.
pub open spec fn split_segments(path: Seq<char>) -> Seq<Seq<char>> {
    segments_after(Seq::empty(), path)
}

/// A text without `/`.
pub open spec fn is_name(text: Seq<char>) -> bool {
    forall|i: int| 0 <= i < text.len() ==> text[i] != '/'
}

/// Every segment that follows is a name and not empty, where the segment
/// that was begun is a name.
pub proof fn lemma_segments_after(pending: Seq<char>, rest: Seq<char>)
    requires
        is_name(pending),
    ensures
        forall|i: int|
            0 <= i < segments_after(pending, rest).len() ==> (#[trigger] segments_after(
                pending,
                rest,
            )[i]).len() > 0 && is_name(segments_after(pending, rest)[i]),
    decreases rest.len(),
{
    let all = segments_after(pending, rest);
    if rest.len() > 0 {
        if rest[0] == '/' {
            let tail = segments_after(Seq::empty(), rest.skip(1));
            lemma_segments_after(Seq::empty(), rest.skip(1));
            assert(all == finished(pending) + tail);
            assert forall|i: int| 0 <= i < all.len() implies (#[trigger] all[i]).len() > 0
                && is_name(all[i]) by {
                if i >= finished(pending).len() {
                    assert(all[i] == tail[i - finished(pending).len()]);
                } else {
                    assert(all[i] == pending);
                }
            }
        } else {
            let longer = pending.push(rest[0]);
            assert(is_name(longer)) by {
                assert forall|i: int| 0 <= i < longer.len() implies longer[i] != '/' by {
                    if i < pending.len() {
                        assert(longer[i] == pending[i]);
                    }
                }
            }
            lemma_segments_after(longer, rest.skip(1));
            assert(all == segments_after(longer, rest.skip(1)));
        }
    } else {
        assert(all == finished(pending));
        assert forall|i: int| 0 <= i < all.len() implies (#[trigger] all[i]).len() > 0 && is_name(
            all[i],
        ) by {
            assert(all[i] == pending);
        }
    }
}

/// No segment of a path is empty, and none holds a `/`.
pub proof fn lemma_segments_are_names(path: Seq<char>)
    ensures
        forall|i: int|
            0 <= i < split_segments(path).len() ==> (#[trigger] split_segments(path)[i]).len() > 0
                && is_name(split_segments(path)[i]),
{
    lemma_segments_after(Seq::empty(), path);
}

/// A path without `/` and not empty is its own single segment.
pub proof fn lemma_name_is_one_segment(name: Seq<char>)
    requires
        name.len() > 0,
        is_name(name),
    ensures
        split_segments(name) == seq![name],
{
    lemma_name_after(Seq::empty(), name);
    assert(Seq::<char>::empty() + name =~= name);
}

proof fn lemma_name_after(pending: Seq<char>, rest: Seq<char>)
    requires
        pending.len() + rest.len() > 0,
        is_name(rest),
    ensures
        segments_after(pending, rest) == seq![pending + rest],
    decreases rest.len(),
{
    if rest.len() == 0 {
        assert(pending + rest =~= pending);
    } else {
        lemma_name_after(pending.push(rest[0]), rest.skip(1));
        assert(pending.push(rest[0]) + rest.skip(1) =~= pending + rest);
    }
}

/// Splits a path into its segments.
pub fn split_path(path: &str) -> (segments: Vec<String>)
    ensures
        path_view(segments@) == split_segments(path@),
{
    let mut out: Vec<String> = Vec::new();
    let mut cur = String::new();
    let mut begun_one = false;
    proof {
        broadcast use vstd::string::group_string_axioms;

        assert(path@.skip(0) =~= path@);
        assert(path_view(out@) =~= Seq::<Seq<char>>::empty());
    }
    for c in it: path.chars()
        invariant
            it.seq() == path@,
            begun_one == (cur@.len() > 0),
            split_segments(path@) == path_view(out@) + segments_after(
                cur@,
                path@.skip(it.index() as int),
            ),
    {
        let ghost rest = path@.skip(it.index() as int);
        let ghost done = path_view(out@);
        let ghost begun = cur@;
        proof {
            assert(rest[0] == c);
            assert(rest.skip(1) =~= path@.skip(it.index() + 1));
            assert(path_view(out@.push(cur)) =~= done + seq![begun]);
        }
        if c == '/' {
            if begun_one {
                out.push(cur);
                cur = String::new();
                begun_one = false;
            }
            proof {
                let tail = segments_after(Seq::empty(), rest.skip(1));
                assert(cur@ =~= Seq::<char>::empty());
                assert(segments_after(begun, rest) == finished(begun) + tail);
                assert(path_view(out@) =~= done + finished(begun));
                assert(done + (finished(begun) + tail) =~= (done + finished(begun)) + tail);
            }
        } else {
            cur.push(c);
            begun_one = true;
            proof {
                assert(segments_after(begun, rest) == segments_after(begun.push(c), rest.skip(1)));
            }
        }
    }
    proof {
        assert(path@.skip(path@.len() as int) =~= Seq::<char>::empty());
        assert(path_view(out@.push(cur)) =~= path_view(out@) + seq![cur@]);
    }
    if begun_one {
        out.push(cur);
    }
    out
}

} // verus!
