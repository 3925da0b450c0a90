//! The rendered form of the store: a two-column table of names and paths,
//! with a header row and columns floored at a minimum width.

use vstd::prelude::*;

verus! {

/// `n` spaces.
pub open spec fn spaces(n: nat) -> Seq<char>
    decreases n,
{
    if n == 0 {
        Seq::empty()
    } else {
        spaces((n - 1) as nat).push(' ')
    }
}

/// `s` padded with spaces on the right to width `w`; a wider `s` stands as
/// it is.
pub open spec fn padded(s: Seq<char>, w: nat) -> Seq<char> {
    if s.len() >= w {
        s
    } else {
        s + spaces((w - s.len()) as nat)
    }
}

/// One rendered row: both cells padded to the column widths, a space before,
/// between and after them, and a line break.
pub open spec fn row(name: Seq<char>, dir: Seq<char>, name_w: nat, dir_w: nat) -> Seq<char> {
    seq![' '] + padded(name, name_w) + seq![' '] + padded(dir, dir_w) + seq![' ', '\n']
}

/// The widest name among the entries.
pub open spec fn max_name_len(entries: Seq<(Seq<char>, Seq<char>)>) -> nat
    decreases entries.len(),
{
    if entries.len() == 0 {
        0
    } else {
        let rest = max_name_len(entries.drop_last());
        if entries.last().0.len() > rest {
            entries.last().0.len()
        } else {
            rest
        }
    }
}

/// The widest path among the entries.
pub open spec fn max_dir_len(entries: Seq<(Seq<char>, Seq<char>)>) -> nat
    decreases entries.len(),
{
    if entries.len() == 0 {
        0
    } else {
        let rest = max_dir_len(entries.drop_last());
        if entries.last().1.len() > rest {
            entries.last().1.len()
        } else {
            rest
        }
    }
}

/// The name column's width: the widest name, floored at 15.
pub open spec fn name_width(entries: Seq<(Seq<char>, Seq<char>)>) -> nat {
    if max_name_len(entries) > 15 {
        max_name_len(entries)
    } else {
        15
    }
}

/// The path column's width: the widest path, floored at 15.
pub open spec fn dir_width(entries: Seq<(Seq<char>, Seq<char>)>) -> nat {
    if max_dir_len(entries) > 15 {
        max_dir_len(entries)
    } else {
        15
    }
}

/// The rendered rows of the entries, in storage order.
pub open spec fn rows_of(entries: Seq<(Seq<char>, Seq<char>)>, name_w: nat, dir_w: nat) -> Seq<
    char,
>
    decreases entries.len(),
{
    if entries.len() == 0 {
        Seq::empty()
    } else {
        rows_of(entries.drop_last(), name_w, dir_w) + row(
            entries.last().0,
            entries.last().1,
            name_w,
            dir_w,
        )
    }
}

/// The whole table: a header row naming the columns, then one row per entry.
pub open spec fn table_of(entries: Seq<(Seq<char>, Seq<char>)>) -> Seq<char> {
    row("Name"@, "Dir"@, name_width(entries), dir_width(entries)) + rows_of(
        entries,
        name_width(entries),
        dir_width(entries),
    )
}

/// Law: the table of an emptied store is the header row alone, both columns
/// at the minimum width.
pub proof fn lemma_empty_table_header_only()
    ensures
        table_of(Seq::<(Seq<char>, Seq<char>)>::empty()) == row("Name"@, "Dir"@, 15, 15),
{
    let empty = Seq::<(Seq<char>, Seq<char>)>::empty();
    assert(row("Name"@, "Dir"@, 15, 15) + rows_of(empty, 15, 15) =~= row("Name"@, "Dir"@, 15, 15));
}

/// Law: the header row at the minimum widths, written out.
pub proof fn lemma_header_row_text()
    ensures
        row("Name"@, "Dir"@, 15, 15) == " Name            Dir             \n"@,
{
    reveal_strlit("Name");
    reveal_strlit("Dir");
    reveal_strlit(" Name            Dir             \n");
    reveal_with_fuel(spaces, 13);
    assert(row("Name"@, "Dir"@, 15, 15) =~= " Name            Dir             \n"@);
}

/// Appends `s` to `out`, padded with spaces on the right to width `w`.
#[verifier::loop_isolation(false)]
pub(crate) fn push_padded(out: &mut String, s: &str, w: usize)
    ensures
        final(out)@ == old(out)@ + padded(s@, w as nat),
{
    let len = s.unicode_len();
    out.append(s);
    proof {
        reveal_strlit(" ");
        assert(" "@ =~= seq![' ']);
    }
    let mut i: usize = len;
    proof {
        assert(out@ =~= old(out)@ + s@ + spaces(0));
    }
    while i < w
        invariant
            len <= i,
            len >= w ==> i == len,
            len < w ==> i <= w,
            out@ == old(out)@ + s@ + spaces((i - len) as nat),
        decreases w - i,
    {
        out.append(" ");
        proof {
            assert(spaces(((i + 1) - len) as nat) =~= spaces((i - len) as nat).push(' '));
            assert(spaces((i - len) as nat).push(' ') =~= spaces((i - len) as nat) + seq![' ']);
            assert(out@ =~= old(out)@ + s@ + spaces(((i + 1) - len) as nat));
        }
        i += 1;
    }
    proof {
        if len >= w {
            assert(spaces(0) =~= Seq::<char>::empty());
            assert(out@ =~= old(out)@ + s@);
        }
        assert(out@ =~= old(out)@ + padded(s@, w as nat));
    }
}

/// Appends one rendered row to `out`.
pub(crate) fn push_row(out: &mut String, name: &str, dir: &str, name_w: usize, dir_w: usize)
    ensures
        final(out)@ == old(out)@ + row(name@, dir@, name_w as nat, dir_w as nat),
{
    proof {
        reveal_strlit(" ");
        reveal_strlit(" \n");
        assert(" "@ =~= seq![' ']);
        assert(" \n"@ =~= seq![' ', '\n']);
    }
    out.append(" ");
    push_padded(out, name, name_w);
    out.append(" ");
    push_padded(out, dir, dir_w);
    out.append(" \n");
    proof {
        assert(out@ =~= old(out)@ + row(name@, dir@, name_w as nat, dir_w as nat));
    }
}

} // verus!
