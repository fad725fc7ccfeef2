//! Tree rails drawn from the comments actually shown: a rail continues
//! only while a later sibling is still to come.
use vstd::prelude::*;
use crate::chars::{chars_of, slice_vec, string_of};
use crate::layout::{rail, rails};
use crate::model::Comment;

verus! {

/// The shown positions all name comments.
pub open spec fn shown_ok(cs: Seq<Comment>, shown: Seq<usize>) -> bool {
    forall|j: int| 0 <= j < shown.len() ==> #[trigger] shown[j] < cs.len()
}

/// The depth of the comment shown at position `j`.
pub open spec fn shown_depth(cs: Seq<Comment>, shown: Seq<usize>, j: int) -> usize {
    cs[shown[j] as int].depth
}

/// Whether, from shown position `j` on, a comment at `depth` comes before
/// any shallower one.
pub open spec fn sibling_ahead(cs: Seq<Comment>, shown: Seq<usize>, j: int, depth: usize) -> bool
    decreases shown.len() - j,
{
    if j < 0 || j >= shown.len() {
        false
    } else if shown_depth(cs, shown, j) < depth {
        false
    } else if shown_depth(cs, shown, j) == depth {
        true
    } else {
        sibling_ahead(cs, shown, j + 1, depth)
    }
}

/// Whether a sibling of the comment shown at `position` is shown later.
pub open spec fn later_sibling(cs: Seq<Comment>, shown: Seq<usize>, position: int) -> bool {
    sibling_ahead(cs, shown, position + 1, shown_depth(cs, shown, position))
}

/// Whether the ancestor at `ancestor_depth` of the comment shown at
/// `position`, looking back from shown position `j` (exclusive), has a later
/// shown sibling.
pub open spec fn ancestor_sibling_before(cs: Seq<Comment>, shown: Seq<usize>, j: int, ancestor_depth: usize) -> bool
    decreases j,
{
    if j <= 0 {
        false
    } else if shown_depth(cs, shown, j - 1) == ancestor_depth {
        later_sibling(cs, shown, j - 1)
    } else if shown_depth(cs, shown, j - 1) < ancestor_depth {
        false
    } else {
        ancestor_sibling_before(cs, shown, j - 1, ancestor_depth)
    }
}

/// Whether a later sibling of the comment shown at `position` is shown.
pub fn has_later_visible_sibling(comments: &[Comment], visible: &[usize], position: usize) -> (r: bool)
    requires
        position < visible@.len(),
        shown_ok(comments@, visible@),
    ensures
        r == later_sibling(comments@, visible@, position as int),
{
    let depth = comments[visible[position]].depth;
    let mut j = position + 1;
    while j < visible.len()
        invariant
            position < j <= visible@.len(),
            shown_ok(comments@, visible@),
            depth == shown_depth(comments@, visible@, position as int),
            later_sibling(comments@, visible@, position as int) == sibling_ahead(comments@, visible@, j as int, depth),
        decreases visible.len() - j,
    {
        let next_depth = comments[visible[j]].depth;
        if next_depth < depth {
            return false;
        }
        if next_depth == depth {
            return true;
        }
        j = j + 1;
    }
    false
}

/// Whether the ancestor at `ancestor_depth` of the comment shown at
/// `position` has a later shown sibling.
pub fn ancestor_has_later_visible_sibling(
    comments: &[Comment],
    visible: &[usize],
    position: usize,
    ancestor_depth: usize,
) -> (r: bool)
    requires
        position <= visible@.len(),
        shown_ok(comments@, visible@),
    ensures
        r == ancestor_sibling_before(comments@, visible@, position as int, ancestor_depth),
{
    let mut j = position;
    while j > 0
        invariant
            j <= position <= visible@.len(),
            shown_ok(comments@, visible@),
            ancestor_sibling_before(comments@, visible@, position as int, ancestor_depth)
                == ancestor_sibling_before(comments@, visible@, j as int, ancestor_depth),
        decreases j,
    {
        let depth = comments[visible[j - 1]].depth;
        if depth == ancestor_depth {
            return has_later_visible_sibling(comments, visible, j - 1);
        }
        if depth < ancestor_depth {
            return false;
        }
        j = j - 1;
    }
    false
}

/// The rails of ancestor levels `from..depth` of the comment shown at
/// `position`: a rail where that ancestor has a later shown sibling, blank
/// otherwise.
pub open spec fn ancestor_rails(cs: Seq<Comment>, shown: Seq<usize>, position: int, depth: int) -> Seq<char>
    decreases depth,
{
    if depth <= 1 {
        seq![]
    } else {
        ancestor_rails(cs, shown, position, depth - 1) + if ancestor_sibling_before(
            cs,
            shown,
            position,
            (depth - 1) as usize,
        ) {
            rail()
        } else {
            seq![' ', ' ', ' ']
        }
    }
}

/// The prefixes of the comment shown at `position`: ancestor rails, then
/// `├─` before the author and a rail before the text when a sibling comes
/// later, `└─` and blanks when it is the last; a top-level comment has no
/// author prefix and its text is indented by two spaces.
pub open spec fn tree_prefix(cs: Seq<Comment>, shown: Seq<usize>, position: int) -> (Seq<char>, Seq<char>) {
    let depth = shown_depth(cs, shown, position);
    if depth == 0 {
        (seq![], seq![' ', ' '])
    } else {
        let a = ancestor_rails(cs, shown, position, depth as int);
        let later = later_sibling(cs, shown, position);
        (a + if later {
            seq!['├', '─', ' ']
        } else {
            seq!['└', '─', ' ']
        }, a + if later {
            rail()
        } else {
            seq![' ', ' ', ' ']
        })
    }
}

/// The author prefix and the text prefix of the comment shown at `position`.
pub fn comment_prefix_for(comments: &[Comment], visible: &[usize], position: usize) -> (r: (String, String))
    requires
        position < visible@.len(),
        shown_ok(comments@, visible@),
    ensures
        (r.0@, r.1@) == tree_prefix(comments@, visible@, position as int),
{
    let depth = comments[visible[position]].depth;
    if depth == 0 {
        let t = vec![' ', ' '];
        assert(t@ =~= seq![' ', ' ']);
        return (string_of(&Vec::new()), string_of(&t));
    }
    let mut prefix: Vec<char> = Vec::new();
    let mut a: usize = 1;
    while a < depth
        invariant
            1 <= a <= depth,
            position < visible@.len(),
            shown_ok(comments@, visible@),
            depth == shown_depth(comments@, visible@, position as int),
            prefix@ == ancestor_rails(comments@, visible@, position as int, a as int),
        decreases depth - a,
    {
        if ancestor_has_later_visible_sibling(comments, visible, position, a) {
            prefix.push('│');
        } else {
            prefix.push(' ');
        }
        prefix.push(' ');
        prefix.push(' ');
        a = a + 1;
        assert(prefix@ =~= ancestor_rails(comments@, visible@, position as int, a as int));
    }
    let later = has_later_visible_sibling(comments, visible, position);
    let mut text = slice_vec(&prefix, 0, prefix.len());
    if later {
        text.push('│');
        prefix.push('├');
    } else {
        text.push(' ');
        prefix.push('└');
    }
    text.push(' ');
    text.push(' ');
    prefix.push('─');
    prefix.push(' ');
    proof {
        let anc = ancestor_rails(comments@, visible@, position as int, depth as int);
        assert(text@ =~= anc + if later {
            rail()
        } else {
            seq![' ', ' ', ' ']
        });
        assert(prefix@ =~= anc + if later {
            seq!['├', '─', ' ']
        } else {
            seq!['└', '─', ' ']
        });
    }
    (string_of(&prefix), string_of(&text))
}

/// The author prefix of a selected comment: its joint (`├─` or `└─`)
/// replaced by a marker; a top-level comment gets the marker alone.
pub open spec fn marked_prefix(author_prefix: Seq<char>, depth: usize) -> Seq<char> {
    if depth == 0 {
        seq!['▶', ' ']
    } else {
        let n = author_prefix.len();
        let base = if n >= 3 && (author_prefix.subrange(n - 3, n as int) == seq!['├', '─', ' ']
            || author_prefix.subrange(n - 3, n as int) == seq!['└', '─', ' ']) {
            author_prefix.subrange(0, n - 3)
        } else {
            author_prefix
        };
        base + seq!['▶', '─', ' ']
    }
}

/// The author prefix of the selected comment.
pub fn selected_comment_prefix(author_prefix: &str, depth: usize) -> (r: String)
    ensures
        r@ == marked_prefix(author_prefix@, depth),
{
    if depth == 0 {
        let m = vec!['▶', ' '];
        assert(m@ =~= seq!['▶', ' ']);
        return string_of(&m);
    }
    let mut p = chars_of(author_prefix);
    let n = p.len();
    if n >= 3 && (p[n - 3] == '├' || p[n - 3] == '└') && p[n - 2] == '─' && p[n - 1] == ' ' {
        p.truncate(n - 3);
        proof {
            let t = author_prefix@.subrange(n - 3, n as int);
            if author_prefix@[n - 3] == '├' {
                assert(t =~= seq!['├', '─', ' ']);
            } else {
                assert(t =~= seq!['└', '─', ' ']);
            }
        }
    } else {
        proof {
            if n >= 3 {
                let t = author_prefix@.subrange(n - 3, n as int);
                assert(t[0] == author_prefix@[n - 3]);
                assert(t[1] == author_prefix@[n - 2]);
                assert(t[2] == author_prefix@[n - 1]);
                assert(t != seq!['├', '─', ' '] && t != seq!['└', '─', ' ']) by {
                    if t == seq!['├', '─', ' '] {
                        assert(seq!['├', '─', ' '][0] == '├');
                    }
                    if t == seq!['└', '─', ' '] {
                        assert(seq!['└', '─', ' '][0] == '└');
                    }
                }
            }
        }
    }
    let ghost base = p@;
    p.push('▶');
    p.push('─');
    p.push(' ');
    assert(p@ =~= base + seq!['▶', '─', ' ']);
    string_of(&p)
}

} // verus!
