//! The text shown to the user when both replicas changed a file: the line diff
//! of the two versions with conflict markers around the parts that differ.
use vstd::prelude::*;

verus! {

/// One line of a line diff.
#[derive(Clone, Debug, PartialEq, Eq)]
pub enum DiffResult {
    /// A line of the local version only.
    Left(String),
    /// A line of both versions.
    Both(String, String),
    /// A line of the remote version only.
    Right(String),
}

/// Kind of a diff line: 0 for a common line, 1 for a local one, 2 for a remote one.
pub open spec fn kind_of(d: DiffResult) -> int {
    match d {
        DiffResult::Both(_, _) => 0,
        DiffResult::Left(_) => 1,
        DiffResult::Right(_) => 2,
    }
}

/// The text of a diff line (the local one for a common line).
pub open spec fn text_of(d: DiffResult) -> Seq<char> {
    match d {
        DiffResult::Both(s, _) => s@,
        DiffResult::Left(s) => s@,
        DiffResult::Right(s) => s@,
    }
}

/// A diff line as plain values: its kind and its text.
pub open spec fn diff_view(d: DiffResult) -> (int, Seq<char>) {
    (kind_of(d), text_of(d))
}

/// The lines that a line diff of `left` against `right` gives, as plain values.
pub uninterp spec fn lines_diff(left: Seq<char>, right: Seq<char>) -> Seq<(int, Seq<char>)>;

/// Relies on `diff::lines`: the diff of two texts line by line, each fragment
/// copied into a `DiffResult`; it depends on the two texts alone.
#[verifier::external_body]
fn diff_lines(left: &str, right: &str) -> (r: Vec<DiffResult>)
    ensures
        r@.map_values(|d: DiffResult| diff_view(d)) == lines_diff(left@, right@),
{
    diff::lines(left, right).into_iter().map(
        |d| match d {
            diff::Result::Left(s) => DiffResult::Left(s.to_string()),
            diff::Result::Both(s, t) => DiffResult::Both(s.to_string(), t.to_string()),
            diff::Result::Right(s) => DiffResult::Right(s.to_string()),
        },
    ).collect()
}

/// The markers written when a line of kind `next` follows one of kind `last`.
pub open spec fn transition(last: int, next: int) -> Seq<char> {
    if next == 0 {
        if last == 1 {
            "<<<<<<< LOCAL END\n"@
        } else if last == 2 {
            ">>>>>>> REMOTE END\n"@
        } else {
            Seq::empty()
        }
    } else if next == 1 {
        if last == 0 {
            "<<<<<<< LOCAL BEGIN\n"@
        } else if last == 2 {
            ">>>>>>> REMOTE END\n"@ + "<<<<<<< LOCAL BEGIN\n"@
        } else {
            Seq::empty()
        }
    } else {
        if last == 0 {
            ">>>>>>> REMOTE BEGIN\n"@
        } else if last == 1 {
            "<<<<<<< LOCAL END\n"@ + ">>>>>>> REMOTE BEGIN\n"@
        } else {
            Seq::empty()
        }
    }
}

/// The marked text of a diff and the kind of its last line (0 when empty).
pub open spec fn markup(s: Seq<(int, Seq<char>)>) -> (Seq<char>, int)
    decreases s.len(),
{
    if s.len() == 0 {
        (Seq::empty(), 0)
    } else {
        let (text, last) = markup(s.drop_last());
        let d = s.last();
        (text + transition(last, d.0) + d.1 + "\n"@, d.0)
    }
}

/// The markers that close a diff whose last line is of kind `last`.
pub open spec fn closing(last: int) -> Seq<char> {
    if last == 1 {
        "<<<<<<< LOCAL END\n"@
    } else if last == 2 {
        ">>>>>>> REMOTE END\n"@
    } else {
        Seq::empty()
    }
}

/// The full marked text of a diff.
pub open spec fn marked(s: Seq<(int, Seq<char>)>) -> Seq<char> {
    markup(s).0 + closing(markup(s).1)
}

fn push_transition(out: &mut String, last: u8, next: u8)
    requires
        last <= 2,
        next <= 2,
    ensures
        final(out)@ == old(out)@ + transition(last as int, next as int),
{
    if next == 0 {
        if last == 1 {
            out.append("<<<<<<< LOCAL END\n");
        } else if last == 2 {
            out.append(">>>>>>> REMOTE END\n");
        } else {
            proof {
                assert(out@ =~= old(out)@ + transition(last as int, next as int));
            }
        }
    } else if next == 1 {
        if last == 0 {
            out.append("<<<<<<< LOCAL BEGIN\n");
        } else if last == 2 {
            out.append(">>>>>>> REMOTE END\n");
            out.append("<<<<<<< LOCAL BEGIN\n");
            proof {
                assert(out@ =~= old(out)@ + transition(last as int, next as int));
            }
        } else {
            proof {
                assert(out@ =~= old(out)@ + transition(last as int, next as int));
            }
        }
    } else {
        if last == 0 {
            out.append(">>>>>>> REMOTE BEGIN\n");
        } else if last == 1 {
            out.append("<<<<<<< LOCAL END\n");
            out.append(">>>>>>> REMOTE BEGIN\n");
            proof {
                assert(out@ =~= old(out)@ + transition(last as int, next as int));
            }
        } else {
            proof {
                assert(out@ =~= old(out)@ + transition(last as int, next as int));
            }
        }
    }
}

/// Writes a line diff as text, with conflict markers where the two sides part
/// and meet again.
pub fn format_diff(diffed: Vec<DiffResult>) -> (r: String)
    ensures
        r@ == marked(diffed@.map_values(|d: DiffResult| diff_view(d))),
{
    let ghost views = diffed@.map_values(|d: DiffResult| diff_view(d));
    let mut tui = String::new();
    let mut last: u8 = 0;
    let mut i: usize = 0;
    while i < diffed.len()
        invariant
            i <= diffed.len(),
            views == diffed@.map_values(|d: DiffResult| diff_view(d)),
            last <= 2,
            markup(views.subrange(0, i as int)) == (tui@, last as int),
        decreases diffed.len() - i,
    {
        let (next, text): (u8, &str) = match &diffed[i] {
            DiffResult::Both(s, _) => (0, s.as_str()),
            DiffResult::Left(s) => (1, s.as_str()),
            DiffResult::Right(s) => (2, s.as_str()),
        };
        proof {
            assert(views[i as int] == (next as int, text@));
            assert(views.subrange(0, i + 1).drop_last() =~= views.subrange(0, i as int));
        }
        push_transition(&mut tui, last, next);
        tui.append(text);
        tui.append("\n");
        last = next;
        i += 1;
    }
    proof {
        assert(views.subrange(0, diffed.len() as int) =~= views);
    }
    if last == 1 {
        tui.append("<<<<<<< LOCAL END\n");
    } else if last == 2 {
        tui.append(">>>>>>> REMOTE END\n");
    } else {
        proof {
            assert(tui@ =~= tui@ + closing(0));
        }
    }
    tui
}

/// The marked text that shows a conflict between the local and the remote version.
pub fn conflict_text(local: &str, remote: &str) -> (r: String)
    ensures
        r@ == marked(lines_diff(local@, remote@)),
{
    format_diff(diff_lines(local, remote))
}

} // verus!
