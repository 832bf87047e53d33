//! The list of a chat's members, laid out in columns.
use vstd::prelude::*;
use crate::peer::{or_else_text, text_or};
use crate::text::{
    byte_len, byte_len_of, decimal, decimal_of, join, join_of, opt_string, pad_right, pad_right_of,
    texts, trim_end, trimmed_end,
};

verus! {

/// How many characters the columns of a row take up at most.
pub const ROW_WIDTH: usize = 78;

/// A member of a chat.
#[derive(Debug)]
pub struct Member {
    pub first_name: Option<String>,
    pub username: Option<String>,
}

/// The model of a member.
#[verifier::ext_equal]
pub struct MemberView {
    pub first_name: Option<Seq<char>>,
    pub username: Option<Seq<char>>,
}

impl View for Member {
    type V = MemberView;

    open spec fn view(&self) -> MemberView {
        MemberView {
            first_name: opt_string(self.first_name),
            username: opt_string(self.username),
        }
    }
}

impl MemberView {
    /// The name of a member: the first name, or else the user name.
    pub open spec fn name(self) -> Seq<char> {
        or_else_text(self.first_name, or_else_text(self.username, "Unknown"@))
    }
}

/// The names of a row of members.
pub open spec fn member_names(s: Seq<Member>) -> Seq<Seq<char>> {
    Seq::new(s.len(), |i: int| s[i]@.name())
}

impl Member {
    /// The name of a member: the first name, or else the user name.
    pub fn name(&self) -> (r: &str)
        ensures
            r@ == self@.name(),
    {
        text_or(&self.first_name, text_or(&self.username, "Unknown"))
    }
}

/// The first `limit` members' names.
pub fn names_of(members: &Vec<Member>, limit: usize) -> (out: Vec<String>)
    ensures
        texts(out@) == if members@.len() > limit {
            member_names(members@).take(limit as int)
        } else {
            member_names(members@)
        },
{
    let n = if members.len() > limit {
        limit
    } else {
        members.len()
    };
    let mut out: Vec<String> = Vec::new();
    let mut i: usize = 0;
    assert(texts(out@) =~= member_names(members@).take(0));
    while i < n
        invariant
            i <= n <= members@.len(),
            texts(out@) == member_names(members@).take(i as int),
        decreases n - i,
    {
        let ghost before = texts(out@);
        out.push(members[i].name().to_owned());
        i = i + 1;
        assert(texts(out@) =~= before.push(members@[i - 1]@.name()));
        assert(texts(out@) =~= member_names(members@).take(i as int));
    }
    assert(member_names(members@).take(members@.len() as int) =~= member_names(members@));
    out
}

/// The greatest length of a name in bytes.
pub open spec fn widest(names: Seq<Seq<char>>) -> nat
    decreases names.len(),
{
    if names.len() == 0 {
        0
    } else if byte_len_of(names.last()) > widest(names.drop_last()) {
        byte_len_of(names.last())
    } else {
        widest(names.drop_last())
    }
}

/// The width of a column: two more than the longest name, within bounds.
pub open spec fn column_width(names: Seq<Seq<char>>) -> nat {
    let w = if names.len() == 0 {
        12
    } else {
        widest(names) + 2
    };
    if w < 12 {
        12
    } else if w > 28 {
        28
    } else {
        w
    }
}

/// How many columns fit into a row.
pub open spec fn column_count(names: Seq<Seq<char>>) -> nat {
    ROW_WIDTH as nat / column_width(names)
}

/// The columns fit into a row, and there is at least one.
pub proof fn columns_fit(names: Seq<Seq<char>>)
    ensures
        column_count(names) >= 1,
        column_count(names) * column_width(names) <= ROW_WIDTH,
{
    let w = column_width(names);
    let c = column_count(names);
    assert(c >= 1 && c * w <= 78) by (nonlinear_arith)
        requires
            12 <= w <= 28,
            c == 78nat / w,
    ;
}

/// A row of names in columns.
pub open spec fn row_of(names: Seq<Seq<char>>, width: nat) -> Seq<char> {
    "    "@ + trim_end(join_of(names.map_values(|n: Seq<char>| pad_right_of(n, width)), ""@))
}

/// The names in rows of `cols` columns.
pub open spec fn rows_of(names: Seq<Seq<char>>, cols: nat, width: nat) -> Seq<Seq<char>>
    decreases names.len(),
{
    if names.len() == 0 || cols == 0 {
        Seq::empty()
    } else if names.len() <= cols {
        seq![row_of(names, width)]
    } else {
        seq![row_of(names.take(cols as int), width)] + rows_of(
            names.skip(cols as int),
            cols,
            width,
        )
    }
}

/// The list of the members of a chat.
pub open spec fn roster_of(label: Seq<char>, names: Seq<Seq<char>>) -> Seq<Seq<char>> {
    seq!["-!- "@ + label + " ("@ + decimal_of(names.len()) + " users):"@] + rows_of(
        names,
        column_count(names),
        column_width(names),
    ) + seq![
        "-!- Total: "@ + decimal_of(names.len()) + " users  (Tab after @ to mention)"@,
    ]
}

fn width_for(names: &Vec<String>) -> (w: usize)
    ensures
        w == column_width(texts(names@)),
        12 <= w <= 28,
{
    let ghost all = texts(names@);
    let mut most: usize = 0;
    let mut i: usize = 0;
    while i < names.len()
        invariant
            i <= names@.len(),
            all == texts(names@),
            most == widest(all.take(i as int)),
        decreases names.len() - i,
    {
        assert(all.take(i + 1).drop_last() =~= all.take(i as int));
        assert(all[i as int] == names@[i as int]@);
        let n = byte_len(names[i].as_str());
        if n > most {
            most = n;
        }
        i = i + 1;
    }
    assert(all.take(i as int) =~= all);
    if names.len() == 0 || most < 10 {
        12
    } else if most > 26 {
        28
    } else {
        most + 2
    }
}

fn make_row(names: &Vec<String>, from: usize, to: usize, width: usize) -> (r: String)
    requires
        from <= to <= names@.len(),
    ensures
        r@ == row_of(texts(names@).subrange(from as int, to as int), width as nat),
{
    let ghost part = texts(names@).subrange(from as int, to as int);
    let ghost padded = part.map_values(|n: Seq<char>| pad_right_of(n, width as nat));
    let mut cells: Vec<String> = Vec::new();
    let mut i: usize = from;
    assert(texts(cells@) =~= padded.take(0));
    while i < to
        invariant
            from <= i <= to <= names@.len(),
            part == texts(names@).subrange(from as int, to as int),
            padded == part.map_values(|n: Seq<char>| pad_right_of(n, width as nat)),
            texts(cells@) == padded.take(i - from),
        decreases to - i,
    {
        let ghost before = texts(cells@);
        let cell = pad_right(names[i].as_str(), width);
        assert(part[i - from] == names@[i as int]@);
        cells.push(cell);
        i = i + 1;
        assert(texts(cells@) =~= before.push(cell@));
        assert(texts(cells@) =~= padded.take(i - from));
    }
    assert(padded.take(i - from) =~= padded);
    let row = join(&cells, "");
    let mut r = "    ".to_owned();
    r.append(trimmed_end(row.as_str()));
    r
}

/// The list of the members of a chat, by the names in their order.
pub fn roster(label: &str, names: &Vec<String>) -> (out: Vec<String>)
    ensures
        texts(out@) == roster_of(label@, texts(names@)),
{
    let ghost all = texts(names@);
    let width = width_for(names);
    let cols = ROW_WIDTH / width;
    let count = decimal(names.len() as u128);
    let mut out: Vec<String> = Vec::new();
    let mut head = "-!- ".to_owned();
    head.append(label);
    head.append(" (");
    head.append(count.as_str());
    head.append(" users):");
    out.push(head);
    let ghost first = seq!["-!- "@ + label@ + " ("@ + decimal_of(all.len()) + " users):"@];
    let ghost rows = rows_of(all, cols as nat, width as nat);
    let mut i: usize = 0;
    proof {
        assert(cols >= 2) by (nonlinear_arith)
            requires
                cols == 78usize / width,
                12 <= width <= 28,
        ;
        assert(texts(out@) =~= first);
        assert(all.skip(0) =~= all);
        assert(first + rows =~= texts(out@) + rows_of(all.skip(0), cols as nat, width as nat));
    }
    while i < names.len()
        invariant
            i <= names@.len(),
            all == texts(names@),
            cols >= 2,
            first + rows == texts(out@) + rows_of(all.skip(i as int), cols as nat, width as nat),
        decreases names.len() - i,
    {
        let ghost rest = all.skip(i as int);
        let ghost before = texts(out@);
        let n = names.len();
        let to = if n - i <= cols {
            n
        } else {
            i + cols
        };
        let row = make_row(names, i, to, width);
        out.push(row);
        proof {
            assert(texts(out@) =~= before.push(row@));
            if n - i <= cols {
                assert(all.subrange(i as int, to as int) =~= rest);
                assert(all.skip(to as int) =~= Seq::empty());
            } else {
                assert(all.subrange(i as int, to as int) =~= rest.take(cols as int));
                assert(all.skip(to as int) =~= rest.skip(cols as int));
            }
            assert(rows_of(rest, cols as nat, width as nat) =~= seq![row@] + rows_of(
                all.skip(to as int),
                cols as nat,
                width as nat,
            ));
            assert(before + (seq![row@] + rows_of(all.skip(to as int), cols as nat, width as nat))
                =~= texts(out@) + rows_of(all.skip(to as int), cols as nat, width as nat));
        }
        i = to;
    }
    let mut total = "-!- Total: ".to_owned();
    total.append(count.as_str());
    total.append(" users  (Tab after @ to mention)");
    let ghost before = texts(out@);
    out.push(total);
    proof {
        assert(texts(out@) =~= before.push(total@));
        assert(all.skip(i as int) =~= Seq::empty());
        assert(before =~= first + rows);
        assert(texts(out@) =~= roster_of(label@, all));
    }
    out
}

} // verus!
