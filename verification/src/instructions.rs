//! The instructions that a client is given: a template in which the root of the workspace
//! stands for a placeholder.

use vstd::prelude::*;
use crate::pieces::{begins_with, contains_text, matches_at, occurs_at};
use crate::text::chars_of;

verus! {

/// What stands in a template for the root of the workspace.
pub const ROOT_PLACEHOLDER: &'static str = "{ABSOLUTE_ROOT}";

/// The text with `root` wherever it has `mark`, read from its start.
pub open spec fn filled_in(s: Seq<char>, mark: Seq<char>, root: Seq<char>) -> Seq<char>
    decreases s.len(),
{
    if s.len() == 0 {
        s
    } else if mark.len() > 0 && begins_with(s, mark) {
        root + filled_in(s.skip(mark.len() as int), mark, root)
    } else {
        seq![s[0]] + filled_in(s.drop_first(), mark, root)
    }
}

/// A text without the mark is left as it is.
pub proof fn law_nothing_to_fill_in(s: Seq<char>, mark: Seq<char>, root: Seq<char>)
    requires
        !contains_text(s, mark),
    ensures
        filled_in(s, mark, root) == s,
    decreases s.len(),
{
    if s.len() > 0 {
        let rest = s.drop_first();
        assert(!begins_with(s, mark)) by {
            if begins_with(s, mark) {
                assert(occurs_at(s, mark, 0));
            }
        }
        assert(!contains_text(rest, mark)) by {
            if contains_text(rest, mark) {
                let i = choose|i: int| occurs_at(rest, mark, i);
                assert(rest.subrange(i, i + mark.len()) =~= s.subrange(
                    i + 1,
                    i + 1 + mark.len(),
                ));
                assert(occurs_at(s, mark, i + 1));
            }
        }
        law_nothing_to_fill_in(rest, mark, root);
        assert(seq![s[0]] + rest =~= s);
    }
}

/// The instructions of a template, for a workspace with this root.
pub fn render_instruction(template: &str, root: &str) -> (r: String)
    ensures
        r@ == filled_in(template@, ROOT_PLACEHOLDER@, root@),
{
    let chars = chars_of(template);
    let mark = chars_of(ROOT_PLACEHOLDER);
    proof {
        reveal_strlit("{ABSOLUTE_ROOT}");
    }
    let mut out = String::new();
    let mut i: usize = 0;
    let ghost whole = filled_in(template@, mark@, root@);
    assert(template@.skip(0) =~= template@);
    assert(out@ + whole =~= whole);
    while i < chars.len()
        invariant
            i <= chars@.len(),
            chars@ == template@,
            mark@.len() > 0,
            whole == filled_in(template@, mark@, root@),
            out@ + filled_in(chars@.skip(i as int), mark@, root@) == whole,
        decreases chars.len() - i,
    {
        let ghost rest = chars@.skip(i as int);
        let ghost before = out@;
        if matches_at(chars.as_slice(), mark.as_slice(), i) {
            proof {
                assert(rest.take(mark@.len() as int) =~= chars@.subrange(
                    i as int,
                    i + mark@.len(),
                ));
                assert(rest.skip(mark@.len() as int) =~= chars@.skip(i + mark@.len()));
            }
            out.append(root);
            i += mark.len();
            assert(out@ + filled_in(chars@.skip(i as int), mark@, root@) =~= before + (root@
                + filled_in(chars@.skip(i as int), mark@, root@)));
        } else {
            proof {
                if begins_with(rest, mark@) {
                    assert(rest.take(mark@.len() as int) =~= chars@.subrange(
                        i as int,
                        i + mark@.len(),
                    ));
                    assert(occurs_at(chars@, mark@, i as int));
                }
                assert(rest.drop_first() =~= chars@.skip(i + 1));
            }
            out.push(chars[i]);
            i += 1;
            assert(out@ + filled_in(chars@.skip(i as int), mark@, root@) =~= before + (seq![
                chars@[i - 1],
            ] + filled_in(chars@.skip(i as int), mark@, root@)));
        }
    }
    assert(chars@.skip(i as int) =~= Seq::<char>::empty());
    assert(out@ =~= out@ + Seq::<char>::empty());
    out
}

/// The first mark in a text gives way to the root, and what stands behind it is filled in on
/// its own.
pub proof fn law_filled_in(front: Seq<char>, back: Seq<char>, mark: Seq<char>, root: Seq<char>)
    requires
        mark.len() > 0,
        forall|i: int| 0 <= i < front.len() ==> !crate::pieces::occurs_at(front + mark, mark, i),
    ensures
        filled_in(front + mark + back, mark, root) == front + root + filled_in(back, mark, root),
    decreases front.len(),
{
    let s = front + mark + back;
    if front.len() == 0 {
        assert(s =~= mark + back);
        assert(s.subrange(0, mark.len() as int) =~= mark);
        assert(begins_with(s, mark));
        assert(s.skip(mark.len() as int) =~= back);
        assert(front + root + filled_in(back, mark, root) =~= root + filled_in(back, mark, root));
    } else {
        let rest = front.drop_first();
        assert(!crate::pieces::occurs_at(front + mark, mark, 0));
        if begins_with(s, mark) {
            assert(s.subrange(0, mark.len() as int) == mark);
            assert((front + mark).subrange(0, mark.len() as int) =~= s.subrange(
                0,
                mark.len() as int,
            ));
            assert(crate::pieces::occurs_at(front + mark, mark, 0));
        }
        assert forall|i: int| 0 <= i < rest.len() implies !crate::pieces::occurs_at(
            rest + mark,
            mark,
            i,
        ) by {
            if crate::pieces::occurs_at(rest + mark, mark, i) {
                assert((front + mark).subrange(i + 1, i + 1 + mark.len()) =~= (rest
                    + mark).subrange(i, i + mark.len()));
                assert(crate::pieces::occurs_at(front + mark, mark, i + 1));
            }
        }
        law_filled_in(rest, back, mark, root);
        assert(s.drop_first() =~= rest + mark + back);
        assert(seq![s[0]] + (rest + root + filled_in(back, mark, root)) =~= front + root
            + filled_in(back, mark, root));
    }
}

/// A text without a mark stays as it is.
pub proof fn law_nothing_filled_in(s: Seq<char>, mark: Seq<char>, root: Seq<char>)
    requires
        forall|i: int| !crate::pieces::occurs_at(s, mark, i),
    ensures
        filled_in(s, mark, root) == s,
    decreases s.len(),
{
    if s.len() > 0 {
        let rest = s.drop_first();
        assert(!crate::pieces::occurs_at(s, mark, 0));
        assert forall|i: int| !crate::pieces::occurs_at(rest, mark, i) by {
            if crate::pieces::occurs_at(rest, mark, i) {
                assert(s.subrange(i + 1, i + 1 + mark.len()) =~= rest.subrange(
                    i,
                    i + mark.len(),
                ));
                assert(crate::pieces::occurs_at(s, mark, i + 1));
            }
        }
        law_nothing_filled_in(rest, mark, root);
        assert(seq![s[0]] + rest =~= s);
    }
}

} // verus!
