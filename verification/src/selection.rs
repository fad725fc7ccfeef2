//! Colouring thread lines given as texts and their owners: the selected
//! comment's marker and rail stand out, other comments show their authors
//! in their own colours.
use vstd::prelude::*;
use crate::chars::{chars_of, has_prefix, push_all, slice_vec, starts_with};
use crate::layout::{push_rails, rail, rails};
use crate::model::Comment;
use crate::spans::{author_color, palette_slot, push_span, Role, Span, SpanView};

verus! {

/// The pieces of the author line of a comment that is not selected: the
/// first `depth * 3` characters as rails (when there are any), then the
/// rest in the author's colour.
pub open spec fn deselected_header_spans(line: Seq<char>, author: Seq<char>, depth: usize) -> Seq<SpanView> {
    let k = if depth * 3 < line.len() {
        depth * 3
    } else {
        line.len() as int
    };
    (if k > 0 {
        seq![(line.subrange(0, k), Role::Rail)]
    } else {
        seq![]
    }) + seq![(line.subrange(k, line.len() as int), Role::Author(palette_slot(author)))]
}

/// The pieces of a text line of a comment that is not selected: its rails
/// (two characters at the top level, three per level below) and its text.
pub open spec fn deselected_body_spans(line: Seq<char>, depth: usize) -> Seq<SpanView> {
    let w = if depth == 0 {
        2
    } else {
        depth * 3
    };
    let k = if w < line.len() {
        w
    } else {
        line.len() as int
    };
    if k == 0 {
        seq![(line.subrange(k, line.len() as int), Role::Text)]
    } else {
        seq![(line.subrange(0, k), Role::Rail), (line.subrange(k, line.len() as int), Role::Text)]
    }
}

/// The pieces of a line of the selected comment. Its author line, when it
/// starts with the selection marker after the ancestors' rails, shows those
/// rails, then the marker and the rest highlighted; its text lines below the
/// top level show the ancestors' rails, the comment's own rail highlighted,
/// then the text. Any other line is highlighted whole (an author line) or
/// plain text.
pub open spec fn selected_spans(line: Seq<char>, depth: usize, header: bool) -> Seq<SpanView> {
    let ancestor = if depth > 0 {
        rails((depth - 1) as nat)
    } else {
        seq![]
    };
    let closest: Seq<char> = if header {
        if depth == 0 {
            seq!['▶', ' ']
        } else {
            seq!['▶', '─', ' ']
        }
    } else {
        rail()
    };
    let prefix = ancestor + closest;
    let lead: Seq<SpanView> = if ancestor.len() > 0 {
        seq![(ancestor, Role::Rail)]
    } else {
        seq![]
    };
    let rest = line.subrange(prefix.len() as int, line.len() as int);
    if header {
        if has_prefix(line, prefix) {
            lead + seq![(closest, Role::Selected), (rest, Role::Selected)]
        } else {
            seq![(line, Role::Selected)]
        }
    } else if depth > 0 && has_prefix(line, prefix) {
        lead + seq![(closest, Role::Selected), (rest, Role::Text)]
    } else {
        seq![(line, Role::Text)]
    }
}

fn saturating_triple(depth: usize) -> (r: usize)
    ensures
        r == (if depth * 3 <= usize::MAX {
            depth * 3
        } else {
            usize::MAX as int
        }),
{
    if depth <= usize::MAX / 3 {
        depth * 3
    } else {
        usize::MAX
    }
}

/// The pieces of the author line of a comment that is not selected.
pub fn deselected_comment_header_line(line: &str, comment: &Comment) -> (r: Vec<Span>)
    ensures
        r.deep_view() == deselected_header_spans(line@, comment.author@, comment.depth),
{
    let text = chars_of(line);
    let w = saturating_triple(comment.depth);
    let k = if w < text.len() {
        w
    } else {
        text.len()
    };
    let mut out: Vec<Span> = Vec::new();
    if k > 0 {
        push_span(&mut out, &slice_vec(&text, 0, k), Role::Rail);
    }
    let slot = author_color(comment.author.as_str());
    push_span(&mut out, &slice_vec(&text, k, text.len()), Role::Author(slot));
    assert(out.deep_view() =~= deselected_header_spans(line@, comment.author@, comment.depth));
    out
}

/// The pieces of a text line of a comment that is not selected.
pub fn deselected_comment_body_line(line: &str, depth: usize) -> (r: Vec<Span>)
    ensures
        r.deep_view() == deselected_body_spans(line@, depth),
{
    let text = chars_of(line);
    let w = if depth == 0 {
        2
    } else {
        saturating_triple(depth)
    };
    let k = if w < text.len() {
        w
    } else {
        text.len()
    };
    let mut out: Vec<Span> = Vec::new();
    if k == 0 {
        push_span(&mut out, &text, Role::Text);
        assert(text@.subrange(0, text@.len() as int) =~= text@);
    } else {
        push_span(&mut out, &slice_vec(&text, 0, k), Role::Rail);
        push_span(&mut out, &slice_vec(&text, k, text.len()), Role::Text);
    }
    assert(out.deep_view() =~= deselected_body_spans(line@, depth));
    out
}

/// The pieces of a line of the selected comment; `header` says it is the
/// comment's author line.
pub fn selected_comment_line(line: &str, depth: usize, header: bool) -> (r: Vec<Span>)
    ensures
        r.deep_view() == selected_spans(line@, depth, header),
{
    let text = chars_of(line);
    let mut ancestor: Vec<char> = Vec::new();
    if depth > 0 {
        push_rails(&mut ancestor, depth - 1);
    }
    let closest: Vec<char> = if header {
        if depth == 0 {
            vec!['▶', ' ']
        } else {
            vec!['▶', '─', ' ']
        }
    } else {
        vec!['│', ' ', ' ']
    };
    let mut prefix = slice_vec(&ancestor, 0, ancestor.len());
    push_all(&mut prefix, &closest);
    proof {
        assert(ancestor@ =~= (if depth > 0 {
            rails((depth - 1) as nat)
        } else {
            seq![]
        }));
        assert(closest@ =~= (if header {
            if depth == 0 {
                seq!['▶', ' ']
            } else {
                seq!['▶', '─', ' ']
            }
        } else {
            rail()
        }));
        assert(prefix@ =~= ancestor@ + closest@);
    }
    let mut out: Vec<Span> = Vec::new();
    let matched = starts_with(&text, &prefix);
    if (header || depth > 0) && matched {
        if ancestor.len() > 0 {
            push_span(&mut out, &ancestor, Role::Rail);
        }
        push_span(&mut out, &closest, Role::Selected);
        let rest = slice_vec(&text, prefix.len(), text.len());
        push_span(&mut out, &rest, if header {
            Role::Selected
        } else {
            Role::Text
        });
    } else if header {
        push_span(&mut out, &text, Role::Selected);
    } else {
        push_span(&mut out, &text, Role::Text);
    }
    assert(out.deep_view() =~= selected_spans(line@, depth, header));
    out
}

/// Whether line `k` of a thread is the first of its comment: it has an
/// owner, and the line before it (if any) has another.
pub open spec fn starts_comment(owners: Seq<Option<usize>>, k: int) -> bool {
    owners[k] is Some && (k == 0 || owners[k - 1] != owners[k])
}

/// The pieces of line `k` of a thread. A line of the selected comment (or,
/// when nothing is selected, a line of no comment) is coloured as a
/// selected line; an author line or text line of another known comment as
/// such; a line of an unknown comment is plain text, and a line of no
/// comment is rail.
pub open spec fn owned_line_spans(
    line: Seq<char>,
    owners: Seq<Option<usize>>,
    k: int,
    cs: Seq<Comment>,
    selected: Option<usize>,
) -> Seq<SpanView> {
    let owner = owners[k];
    let header = starts_comment(owners, k);
    if owner == selected {
        let depth = match owner {
            Some(i) => if i < cs.len() {
                cs[i as int].depth
            } else {
                0
            },
            None => 0,
        };
        selected_spans(line, depth, header)
    } else {
        match owner {
            Some(i) => if i >= cs.len() {
                seq![(line, Role::Text)]
            } else if header {
                deselected_header_spans(line, cs[i as int].author@, cs[i as int].depth)
            } else {
                deselected_body_spans(line, cs[i as int].depth)
            },
            None => seq![(line, Role::Rail)],
        }
    }
}

/// The pieces of the lines of a thread given as texts and their owners (as
/// many lines as both lists have).
pub fn comment_lines_text(
    lines: &[String],
    owners: &[Option<usize>],
    comments: &[Comment],
    selected: Option<usize>,
) -> (r: Vec<Vec<Span>>)
    ensures
        r@.len() == if lines@.len() < owners@.len() {
            lines@.len()
        } else {
            owners@.len()
        },
        forall|k: int| 0 <= k < r@.len() ==> #[trigger] r@[k].deep_view() == owned_line_spans(
            lines@[k]@,
            owners@,
            k,
            comments@,
            selected,
        ),
{
    let n = if lines.len() < owners.len() {
        lines.len()
    } else {
        owners.len()
    };
    let mut out: Vec<Vec<Span>> = Vec::new();
    let mut k: usize = 0;
    while k < n
        invariant
            k <= n,
            n <= lines.len(),
            n <= owners.len(),
            out@.len() == k,
            forall|j: int| 0 <= j < k ==> #[trigger] out@[j].deep_view() == owned_line_spans(
                lines@[j]@,
                owners@,
                j,
                comments@,
                selected,
            ),
        decreases n - k,
    {
        let owner = owners[k];
        let header = owner.is_some() && (k == 0 || owners[k - 1] != owner);
        let line = lines[k].as_str();
        let spans = if owner == selected {
            let depth = match owner {
                Some(i) => if i < comments.len() {
                    comments[i].depth
                } else {
                    0
                },
                None => 0,
            };
            selected_comment_line(line, depth, header)
        } else {
            match owner {
                Some(i) => if i >= comments.len() {
                    let mut v: Vec<Span> = Vec::new();
                    push_span(&mut v, &chars_of(line), Role::Text);
                    assert(v.deep_view() =~= seq![(line@, Role::Text)]);
                    v
                } else if header {
                    deselected_comment_header_line(line, &comments[i])
                } else {
                    deselected_comment_body_line(line, comments[i].depth)
                },
                None => {
                    let mut v: Vec<Span> = Vec::new();
                    push_span(&mut v, &chars_of(line), Role::Rail);
                    assert(v.deep_view() =~= seq![(line@, Role::Rail)]);
                    v
                },
            }
        };
        assert(header == starts_comment(owners@, k as int));
        out.push(spans);
        k = k + 1;
    }
    out
}

} // verus!
