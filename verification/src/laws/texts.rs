//! What is promised of texts: their pieces, their numerals, their order, and lists of
//! them.
use vstd::prelude::*;
use crate::order::{lex_le, name_le};
use crate::roster::{
    column_count, column_width, columns_fit, roster_of, row_of, rows_of, widest, MemberView,
};
use crate::text::{
    after_prefix, all_digits, byte_len_of, decimal_int, decimal_of, digits_value, entries_of,
    first_at, has_prefix, i64_of, join_of, lemma_decimal_reads_back, lemma_decimal_value,
    lemma_first_at, lemma_first_at_is, lowercase, pad_right_of, split_all, split_first, trim,
    trim_end, unsigned_part, usize_of,
};

verus! {

// ── Pieces ───────────────────────────────────────────────────────────────────

/// A text starts with another exactly when it is that one followed by something, and
/// what follows is the rest.
pub proof fn prefixes_leave_the_rest(p: Seq<char>, rest: Seq<char>, s: Seq<char>)
    ensures
        has_prefix(p + rest, p),
        after_prefix(p + rest, p) == Some(rest),
        has_prefix(s, p) <==> exists|r: Seq<char>| s == #[trigger] (p + r),
{
    assert((p + rest).take(p.len() as int) =~= p);
    assert((p + rest).skip(p.len() as int) =~= rest);
    if has_prefix(s, p) {
        assert(s =~= p + s.skip(p.len() as int));
    }
    if exists|r: Seq<char>| s == #[trigger] (p + r) {
        let r = choose|r: Seq<char>| s == #[trigger] (p + r);
        assert((p + r).take(p.len() as int) =~= p);
    }
}

/// The pieces of a text between separators hold no separator, and with separators
/// between them make up the text again.
pub proof fn pieces_make_up_the_text(s: Seq<char>, c: char)
    ensures
        split_all(s, c).len() > 0,
        join_of(split_all(s, c), seq![c]) == s,
        forall|i: int, j: int|
            0 <= i < split_all(s, c).len() && 0 <= j < split_all(s, c)[i].len()
                ==> #[trigger] split_all(s, c)[i][j] != c,
    decreases s.len(),
{
    lemma_first_at(s, c);
    let n = first_at(s, c) as int;
    let all = split_all(s, c);
    if n < s.len() {
        let rest = s.skip(n + 1);
        pieces_make_up_the_text(rest, c);
        let t = split_all(rest, c);
        lemma_join_cons(s.take(n), t, seq![c]);
        assert(s =~= s.take(n) + seq![c] + rest);
        assert forall|i: int, j: int|
            0 <= i < all.len() && 0 <= j < all[i].len() implies #[trigger] all[i][j] != c by {
            if i == 0 {
                assert(all[0] == s.take(n));
                assert(s.take(n)[j] == s[j]);
            } else {
                assert(all[i] == t[i - 1]);
                assert(t[i - 1][j] != c);
            }
        }
    } else {
        assert forall|i: int, j: int|
            0 <= i < all.len() && 0 <= j < all[i].len() implies #[trigger] all[i][j] != c by {
            assert(s[j] != c);
        }
    }
}

proof fn lemma_join_cons(a: Seq<char>, v: Seq<Seq<char>>, sep: Seq<char>)
    requires
        v.len() > 0,
    ensures
        join_of(seq![a] + v, sep) == a + sep + join_of(v, sep),
    decreases v.len(),
{
    let all = seq![a] + v;
    if v.len() == 1 {
        reveal_with_fuel(join_of, 2);
        assert(all.drop_last() =~= seq![a]);
        assert(all.last() == v[0]);
    } else {
        lemma_join_cons(a, v.drop_last(), sep);
        assert(all.drop_last() =~= seq![a] + v.drop_last());
        assert(all.last() == v.last());
        assert(a + sep + join_of(v.drop_last(), sep) + sep + v.last() =~= a + sep + (join_of(
            v.drop_last(),
            sep,
        ) + sep + v.last()));
    }
}

/// Texts in a row have the separator between each two of them, and nothing else.
pub proof fn joining_puts_the_separator_between(
    v: Seq<Seq<char>>,
    x: Seq<char>,
    sep: Seq<char>,
)
    ensures
        join_of(Seq::empty(), sep) == Seq::<char>::empty(),
        join_of(seq![x], sep) == x,
        v.len() > 0 ==> join_of(v.push(x), sep) == join_of(v, sep) + sep + x,
{
    assert(v.push(x).drop_last() =~= v);
}

/// A text that is filled up starts with itself, goes on with spaces alone, and is as
/// long as asked for, or as it was.
pub proof fn filling_up_adds_spaces(s: Seq<char>, width: nat)
    ensures
        s.is_prefix_of(pad_right_of(s, width)),
        pad_right_of(s, width).len() == if s.len() < width {
            width
        } else {
            s.len()
        },
        forall|i: int|
            s.len() <= i < pad_right_of(s, width).len() ==> #[trigger] pad_right_of(s, width)[i]
                == ' ',
{
    assert(s =~= pad_right_of(s, width).subrange(0, s.len() as int));
}

/// Splitting at the first separator gives what stands before it and what stands
/// behind it.
pub proof fn splitting_cuts_at_the_first(a: Seq<char>, c: char, b: Seq<char>)
    requires
        forall|i: int| 0 <= i < a.len() ==> #[trigger] a[i] != c,
    ensures
        split_first(a + seq![c] + b, c) == Some((a, b)),
        split_first(a, c) is None,
{
    let s = a + seq![c] + b;
    let n = a.len() as int;
    assert(s[n] == c);
    assert forall|j: int| 0 <= j < n implies s[j] != c by {
        assert(s[j] == a[j]);
    }
    lemma_first_at_is(s, c, n);
    assert(s.take(n) =~= a);
    assert(s.skip(n + 1) =~= b);
    lemma_first_at(a, c);
    if first_at(a, c) < a.len() {
        assert(a[first_at(a, c) as int] == c);
    }
}

/// The entries of a file are its lines in their order, each without white space
/// around it, but for those that are blank.
pub proof fn entries_are_the_lines_that_are_not_blank(line: Seq<char>, rest: Seq<char>)
    requires
        forall|i: int| 0 <= i < line.len() ==> #[trigger] line[i] != '\n',
    ensures
        entries_of(line + "\n"@ + rest) == entries_of(line) + entries_of(rest),
        entries_of(line) == if trim(line).len() == 0 {
            Seq::empty()
        } else {
            seq![trim(line)]
        },
{
    reveal_strlit("\n");
    let trims = |l: Seq<char>| trim(l);
    let full = |l: Seq<char>| l.len() > 0;
    let t = line + "\n"@ + rest;
    let n = line.len() as int;
    assert(t[n] == '\n');
    assert forall|j: int| 0 <= j < n implies t[j] != '\n' by {
        assert(t[j] == line[j]);
    }
    lemma_first_at_is(t, '\n', n);
    assert(t.take(n) =~= line);
    assert(t.skip(n + 1) =~= rest);
    lemma_first_at(line, '\n');
    if first_at(line, '\n') < line.len() {
        assert(line[first_at(line, '\n') as int] == '\n');
    }
    assert(split_all(line, '\n') == seq![line]);
    assert(split_all(line, '\n').map_values(trims) =~= seq![trim(line)]);
    assert(split_all(t, '\n').map_values(trims) =~= seq![trim(line)] + split_all(
        rest,
        '\n',
    ).map_values(trims));
    Seq::filter_distributes_over_add(
        seq![trim(line)],
        split_all(rest, '\n').map_values(trims),
        full,
    );
    reveal_with_fuel(Seq::filter, 2);
    let one = seq![trim(line)];
    assert(one.drop_last() =~= Seq::empty());
    assert(one.last() == trim(line));
    assert(one.filter(full) =~= if trim(line).len() == 0 {
        Seq::empty()
    } else {
        one
    });
}

// ── Numerals ─────────────────────────────────────────────────────────────────

/// A numeral goes on by one digit for ten times its number and the digit more; it
/// reads back as its number.
pub proof fn numerals_are_decimal(n: nat, d: nat)
    requires
        d < 10,
    ensures
        n > 0 ==> decimal_of(10 * n + d) == decimal_of(n).push(('0' as u32 + d) as char),
        decimal_of(d) == seq![('0' as u32 + d) as char],
        digits_value(decimal_of(n)) == n,
        n <= usize::MAX ==> usize_of(decimal_of(n)) == Some(n as usize),
        n > 0 ==> decimal_int(-(n as int)) == seq!['-'] + decimal_of(n),
        decimal_int(n as int) == decimal_of(n),
{
    lemma_decimal_value(n);
    if n <= usize::MAX {
        lemma_decimal_reads_back(n as usize);
    }
    if n > 0 {
        assert((10 * n + d) / 10 == n);
        assert((10 * n + d) % 10 == d);
    }
}

/// A text with anything but digits in it, or with nothing, is no number; one plus
/// sign before the digits makes no difference.
pub proof fn only_digits_are_numbers(s: Seq<char>, i: int)
    ensures
        s.len() == 0 ==> usize_of(s) is None,
        0 < i < s.len() && !('0' <= s[i] <= '9') ==> usize_of(s) is None,
        s.len() > 0 && s[0] != '+' && !('0' <= s[0] <= '9') ==> usize_of(s) is None,
        s.len() > 0 && s[0] != '+' ==> usize_of(seq!['+'] + s) == usize_of(s),
{
    let d = unsigned_part(s);
    if 0 < i < s.len() && !('0' <= s[i] <= '9') {
        if s[0] == '+' {
            assert(d[i - 1] == s[i]);
        } else {
            assert(d[i] == s[i]);
        }
    }
    if s.len() > 0 && s[0] != '+' && !('0' <= s[0] <= '9') {
        assert(d[0] == s[0]);
    }
    assert((seq!['+'] + s).skip(1) =~= s);
}

/// A row of digits is the number it stands for, with either sign before it, where that
/// fits; a text with anything but digits behind its first character, or with no digit,
/// is no signed number.
pub proof fn signed_numbers_have_a_sign_and_digits(s: Seq<char>, i: int)
    requires
        s.len() > 0,
    ensures
        (forall|j: int| 0 <= j < s.len() ==> '0' <= #[trigger] s[j] <= '9') ==> {
            let n = digits_value(s) as int;
            &&& i64_of(s) == if n <= i64::MAX {
                Some(n as i64)
            } else {
                None
            }
            &&& i64_of(seq!['+'] + s) == i64_of(s)
            &&& i64_of(seq!['-'] + s) == if -n >= i64::MIN {
                Some((-n) as i64)
            } else {
                None
            }
        },
        0 < i < s.len() && !('0' <= s[i] <= '9') ==> i64_of(s) is None,
        s[0] != '+' && s[0] != '-' && !('0' <= s[0] <= '9') ==> i64_of(s) is None,
        s.len() == 1 && !('0' <= s[0] <= '9') ==> i64_of(s) is None,
{
    let plus = seq!['+'] + s;
    let minus = seq!['-'] + s;
    assert(plus.skip(1) =~= s);
    assert(minus.skip(1) =~= s);
    if forall|j: int| 0 <= j < s.len() ==> '0' <= #[trigger] s[j] <= '9' {
        assert('0' <= s[0] <= '9');
        assert(all_digits(s));
    }
    let d = if s[0] == '-' {
        s.skip(1)
    } else {
        unsigned_part(s)
    };
    if 0 < i < s.len() && !('0' <= s[i] <= '9') {
        if s[0] == '-' || s[0] == '+' {
            assert(d[i - 1] == s[i]);
        } else {
            assert(d[i] == s[i]);
        }
    }
    if s[0] != '+' && s[0] != '-' && !('0' <= s[0] <= '9') {
        assert(d[0] == s[0]);
    }
}

// ── Alphabetical order ───────────────────────────────────────────────────────

proof fn lemma_common(p: Seq<char>, a: Seq<char>, b: Seq<char>)
    ensures
        lex_le(p + a, p + b) == lex_le(a, b),
    decreases p.len(),
{
    if p.len() > 0 {
        let t = p.drop_first();
        lemma_common(t, a, b);
        assert((p + a).drop_first() =~= t + a);
        assert((p + b).drop_first() =~= t + b);
        assert((p + a)[0] == (p + b)[0]);
    } else {
        assert(p + a =~= a);
        assert(p + b =~= b);
    }
}

/// Names are in the order of their lower-case forms: by the first character in which
/// they differ, and a shorter one before the longer ones that start with it.
pub proof fn order_is_alphabetical(
    x: Seq<char>,
    y: Seq<char>,
    p: Seq<char>,
    a: Seq<char>,
    b: Seq<char>,
)
    requires
        lowercase(x) == p + a,
        lowercase(y) == p + b,
    ensures
        a.len() == 0 ==> name_le(x, y),
        a.len() > 0 && b.len() == 0 ==> !name_le(x, y),
        a.len() > 0 && b.len() > 0 && a[0] < b[0] ==> name_le(x, y),
        a.len() > 0 && b.len() > 0 && a[0] > b[0] ==> !name_le(x, y),
{
    lemma_common(p, a, b);
}

// ── Lists of members ─────────────────────────────────────────────────────────

/// A member goes by the first name, or else by the user name.
pub proof fn members_go_by_their_names(first: Seq<char>, user: Seq<char>, any: Option<Seq<char>>)
    ensures
        (MemberView { first_name: Some(first), username: any }).name() == first,
        (MemberView { first_name: None, username: Some(user) }).name() == user,
        (MemberView { first_name: None, username: None }).name() == "Unknown"@,
{
}

proof fn lemma_widest(names: Seq<Seq<char>>)
    ensures
        forall|i: int|
            0 <= i < names.len() ==> byte_len_of(#[trigger] names[i]) <= widest(names),
        names.len() > 0 ==> exists|i: int|
            0 <= i < names.len() && byte_len_of(#[trigger] names[i]) == widest(names),
    decreases names.len(),
{
    if names.len() > 0 {
        let t = names.drop_last();
        lemma_widest(t);
        assert forall|i: int| 0 <= i < names.len() implies byte_len_of(#[trigger] names[i])
            <= widest(names) by {
            if i < t.len() {
                assert(t[i] == names[i]);
            }
        }
        if byte_len_of(names.last()) == widest(names) {
            assert(byte_len_of(names[names.len() - 1]) == widest(names));
        } else {
            assert(t.len() > 0);
            let i = choose|i: int| 0 <= i < t.len() && byte_len_of(#[trigger] t[i]) == widest(t);
            assert(names[i] == t[i]);
        }
    }
}

/// The columns of a list are two wider than its longest name, counted in bytes, but
/// at least twelve and at most twenty-eight wide; as many stand in a row as fit into
/// seventy-eight.
pub proof fn columns_are_as_wide_as_the_names(names: Seq<Seq<char>>, longest: int)
    requires
        0 <= longest < names.len(),
        forall|i: int|
            0 <= i < names.len() ==> byte_len_of(#[trigger] names[i]) <= byte_len_of(
                names[longest],
            ),
    ensures
        ({
            let w = byte_len_of(names[longest]) + 2;
            &&& column_width(names) == if w < 12 {
                12
            } else if w > 28 {
                28
            } else {
                w
            }
            &&& column_count(names) == 78nat / column_width(names)
        }),
{
    lemma_widest(names);
    let i = choose|i: int|
        0 <= i < names.len() && byte_len_of(#[trigger] names[i]) == widest(names);
    assert(byte_len_of(names[longest]) <= widest(names));
}

/// The names of one row, each filled up to the width of a column.
pub open spec fn row_text(names: Seq<Seq<char>>, width: nat) -> Seq<char>
    decreases names.len(),
{
    if names.len() == 0 {
        Seq::empty()
    } else {
        row_text(names.drop_last(), width) + pad_right_of(names.last(), width)
    }
}

proof fn lemma_row(names: Seq<Seq<char>>, width: nat)
    ensures
        row_of(names, width) == "    "@ + trim_end(row_text(names, width)),
{
    lemma_join_cells(names, width);
}

proof fn lemma_join_cells(names: Seq<Seq<char>>, width: nat)
    ensures
        join_of(names.map_values(|n: Seq<char>| pad_right_of(n, width)), ""@) == row_text(
            names,
            width,
        ),
    decreases names.len(),
{
    reveal_strlit("");
    let cells = names.map_values(|n: Seq<char>| pad_right_of(n, width));
    if names.len() > 0 {
        let t = names.drop_last();
        lemma_join_cells(t, width);
        assert(cells.drop_last() =~= t.map_values(|n: Seq<char>| pad_right_of(n, width)));
        assert(cells.last() == pad_right_of(names.last(), width));
        if names.len() == 1 {
            assert(row_text(t, width) =~= Seq::empty());
            assert(cells[0] =~= row_text(t, width) + pad_right_of(names.last(), width));
        } else {
            assert(join_of(cells.drop_last(), ""@) + ""@ + cells.last() =~= row_text(t, width)
                + pad_right_of(names.last(), width));
        }
    }
}

proof fn lemma_rows(names: Seq<Seq<char>>, cols: nat, width: nat, r: int)
    requires
        cols > 0,
        r >= 0,
    ensures
        r * cols < names.len() <==> r < rows_of(names, cols, width).len(),
        r * cols < names.len() ==> rows_of(names, cols, width)[r] == row_of(
            names.subrange(
                r * cols,
                if (r + 1) * cols < names.len() {
                    (r + 1) * cols
                } else {
                    names.len() as int
                },
            ),
            width,
        ),
    decreases names.len(),
{
    let rows = rows_of(names, cols, width);
    assert(0 * cols == 0);
    assert(1 * cols == cols);
    if names.len() == 0 {
        assert(r * cols >= 0) by (nonlinear_arith)
            requires
                r >= 0,
        ;
    } else if names.len() <= cols {
        if r == 0 {
            assert(names.subrange(0, names.len() as int) =~= names);
        } else {
            assert(r * cols >= cols) by (nonlinear_arith)
                requires
                    r >= 1,
            ;
        }
    } else {
        let rest = names.skip(cols as int);
        if r == 0 {
            assert(names.subrange(0, cols as int) =~= names.take(cols as int));
        } else {
            lemma_rows(rest, cols, width, r - 1);
            assert((r - 1) * cols == r * cols - cols) by (nonlinear_arith);
            assert(r * cols == (r + 1) * cols - cols) by (nonlinear_arith);
            assert(r * cols >= cols) by (nonlinear_arith)
                requires
                    r >= 1,
            ;
            if r * cols < names.len() {
                let to = if (r + 1) * cols < names.len() {
                    (r + 1) * cols
                } else {
                    names.len() as int
                };
                assert(rest.subrange(r * cols - cols, to - cols) =~= names.subrange(
                    r * cols,
                    to,
                ));
            }
        }
    }
}

/// The list of the members of a chat names the chat and counts the names above and
/// below; between them stand all the names in their order, row by row, as many in a
/// row as there are columns.
pub proof fn lists_show_every_name(label: Seq<char>, names: Seq<Seq<char>>, r: int)
    requires
        r >= 0,
    ensures
        ({
            let list = roster_of(label, names);
            let cols = column_count(names);
            &&& list.len() >= 2
            &&& list[0] == "-!- "@ + label + " ("@ + decimal_of(names.len()) + " users):"@
            &&& list.last() == "-!- Total: "@ + decimal_of(names.len())
                + " users  (Tab after @ to mention)"@
            &&& r * cols < names.len() <==> r < list.len() - 2
            &&& r * cols < names.len() ==> list[r + 1] == "    "@ + trim_end(
                row_text(
                    names.subrange(
                        r * cols,
                        if (r + 1) * cols < names.len() {
                            (r + 1) * cols
                        } else {
                            names.len() as int
                        },
                    ),
                    column_width(names),
                ),
            )
        }),
{
    columns_fit(names);
    let cols = column_count(names);
    let width = column_width(names);
    lemma_rows(names, cols, width, r);
    if r * cols < names.len() {
        let part = names.subrange(
            r * cols,
            if (r + 1) * cols < names.len() {
                (r + 1) * cols
            } else {
                names.len() as int
            },
        );
        lemma_row(part, width);
    }
}

} // verus!
