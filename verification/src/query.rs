//! Text of multi-row value lists with numbered parameters.

use vstd::prelude::*;
use vstd::string::StringExecFns;

verus! {

/// The character of a decimal digit.
pub open spec fn digit(d: nat) -> char {
    if d == 0 {
        '0'
    } else if d == 1 {
        '1'
    } else if d == 2 {
        '2'
    } else if d == 3 {
        '3'
    } else if d == 4 {
        '4'
    } else if d == 5 {
        '5'
    } else if d == 6 {
        '6'
    } else if d == 7 {
        '7'
    } else if d == 8 {
        '8'
    } else {
        '9'
    }
}

/// `n` in decimal, without leading zeros.
pub open spec fn decimal(n: nat) -> Seq<char>
    decreases n,
{
    if n < 10 {
        seq![digit(n)]
    } else {
        decimal(n / 10).push(digit(n % 10))
    }
}

/// Parameter number `index`, cast to `ty` where one is given.
pub open spec fn placeholder(index: nat, ty: Option<Seq<char>>) -> Seq<char> {
    match ty {
        Some(t) => seq!['(', '$'] + decimal(index) + seq![')', ':', ':'] + t,
        None => seq!['$'] + decimal(index),
    }
}

pub open spec fn comma_unless(last: bool) -> Seq<char> {
    if last {
        Seq::empty()
    } else {
        seq![',']
    }
}

/// The first `k` parameters of a row of `args` parameters that starts at parameter
/// number `first`, separated by commas.
pub open spec fn cells(args: nat, first: nat, types: Option<Seq<Seq<char>>>, k: nat) -> Seq<char>
    decreases k,
{
    if k == 0 {
        Seq::empty()
    } else {
        let i = (k - 1) as nat;
        cells(args, first, types, i) + placeholder(
            first + i,
            match types {
                Some(t) => Some(t[i as int]),
                None => None,
            },
        ) + comma_unless(i + 1 == args)
    }
}

/// The first `m` of `rows` rows, each in brackets, separated by commas. Parameters
/// are numbered from 1 through the rows; only the first row is cast, and only where
/// `types` are given.
pub open spec fn value_rows(args: nat, rows: nat, types: Seq<Seq<char>>, m: nat) -> Seq<char>
    decreases m,
{
    if m == 0 {
        Seq::empty()
    } else {
        let r = (m - 1) as nat;
        value_rows(args, rows, types, r) + seq!['('] + cells(
            args,
            r * args + 1,
            if r == 0 && types.len() > 0 {
                Some(types)
            } else {
                None
            },
            args,
        ) + seq![')'] + comma_unless(r + 1 == rows)
    }
}

pub open spec fn names_view(names: Seq<&str>) -> Seq<Seq<char>> {
    Seq::new(names.len(), |i: int| names[i]@)
}

fn digit_text(d: usize) -> (r: &'static str)
    requires
        d < 10,
    ensures
        r@ == seq![digit(d as nat)],
{
    proof {
        reveal_strlit("0");
        reveal_strlit("1");
        reveal_strlit("2");
        reveal_strlit("3");
        reveal_strlit("4");
        reveal_strlit("5");
        reveal_strlit("6");
        reveal_strlit("7");
        reveal_strlit("8");
        reveal_strlit("9");
    }
    let r = if d == 0 {
        "0"
    } else if d == 1 {
        "1"
    } else if d == 2 {
        "2"
    } else if d == 3 {
        "3"
    } else if d == 4 {
        "4"
    } else if d == 5 {
        "5"
    } else if d == 6 {
        "6"
    } else if d == 7 {
        "7"
    } else if d == 8 {
        "8"
    } else {
        "9"
    };
    r
}

/// Appends `n` in decimal.
pub fn push_decimal(out: &mut String, n: usize)
    ensures
        final(out)@ == old(out)@ + decimal(n as nat),
    decreases n,
{
    if n >= 10 {
        push_decimal(out, n / 10);
    }
    out.append(digit_text(n % 10));
}

/// Appends to `query` the value lists of `rows` rows of `args` parameters each.
pub fn _multiline_query(query: &mut String, args: usize, rows: usize, types: &[&str])
    requires
        rows == 0 || types.len() == 0 || types.len() >= args,
        args * rows < usize::MAX,
    ensures
        final(query)@ == old(query)@ + value_rows(
            args as nat,
            rows as nat,
            names_view(types@),
            rows as nat,
        ),
        rows == 0 ==> final(query)@ == old(query)@,
{
    let ghost names = names_view(types@);
    let ghost start = query@;
    let mut arg_index: usize = 1;
    let mut row: usize = 0;
    proof {
        reveal_strlit("(");
        reveal_strlit(")");
        reveal_strlit(",");
        reveal_strlit("($");
        reveal_strlit(")::");
        reveal_strlit("$");
    }
    while row < rows
        invariant
            row <= rows,
            names == names_view(types@),
            rows == 0 || types.len() == 0 || types.len() >= args,
            args * rows < usize::MAX,
            arg_index == row * args + 1,
            query@ == start + value_rows(args as nat, rows as nat, names, row as nat),
            "("@ == seq!['('],
            ")"@ == seq![')'],
            ","@ == seq![','],
            "($"@ == seq!['(', '$'],
            ")::"@ == seq![')', ':', ':'],
            "$"@ == seq!['$'],
        decreases rows - row,
    {
        let ghost row_start = query@;
        let ghost first = (row * args + 1) as nat;
        let ghost typed = if row == 0 && names.len() > 0 {
            Some(names)
        } else {
            None
        };
        proof {
            assert((row + 1) * args <= rows * args) by (nonlinear_arith)
                requires
                    row < rows,
            ;
            assert((row + 1) * args == row * args + args) by (nonlinear_arith);
        }
        query.append("(");
        let mut i: usize = 0;
        assert(query@ =~= row_start + seq!['('] + cells(args as nat, first, typed, 0));
        while i < args
            invariant
                i <= args,
                row < rows,
                names == names_view(types@),
                types.len() == 0 || types.len() >= args,
                row * args + args < usize::MAX,
                arg_index == row * args + 1 + i,
                first == row * args + 1,
                typed == (if row == 0 && names.len() > 0 {
                    Some(names)
                } else {
                    None::<Seq<Seq<char>>>
                }),
                query@ == row_start + seq!['('] + cells(args as nat, first, typed, i as nat),
                ","@ == seq![','],
                "($"@ == seq!['(', '$'],
                ")::"@ == seq![')', ':', ':'],
                "$"@ == seq!['$'],
            decreases args - i,
        {
            if row == 0 && types.len() > 0 {
                query.append("($");
                push_decimal(query, arg_index);
                query.append(")::");
                query.append(types[i]);
            } else {
                query.append("$");
                push_decimal(query, arg_index);
            }
            arg_index += 1;
            if i != args - 1 {
                query.append(",");
            }
            assert(query@ =~= row_start + seq!['('] + cells(
                args as nat,
                first,
                typed,
                (i + 1) as nat,
            ));
            i += 1;
        }
        query.append(")");
        if row != rows - 1 {
            query.append(",");
        }
        row += 1;
    }
}

} // verus!
