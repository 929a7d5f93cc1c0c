use vstd::prelude::*;
use crate::ast::ASTNodeType;
use crate::interp::TraceLine;

verus! {

/// The ASCII character of one decimal digit.
pub open spec fn digit_char(d: int) -> char {
    if d == 0 {
        '0'
    } else if d == 1 {
        '1'
    } else if d == 2 {
        '2'
    } else if d == 3 {
        '3'
    } else if d == 4 {
        '4'
    } else if d == 5 {
        '5'
    } else if d == 6 {
        '6'
    } else if d == 7 {
        '7'
    } else if d == 8 {
        '8'
    } else {
        '9'
    }
}

/// The decimal text of a nonnegative integer: most significant digit
/// first, no sign, no leading zero except for the value 0 itself.
pub open spec fn u64_dec(n: nat) -> Seq<char>
    decreases n,
{
    if n < 10 {
        seq![digit_char(n as int)]
    } else {
        u64_dec(n / 10).push(digit_char((n % 10) as int))
    }
}

/// The decimal text of a signed value: a minus sign before the magnitude
/// for negative values.
pub open spec fn i64_dec(v: int) -> Seq<char> {
    if v < 0 {
        seq!['-'] + u64_dec((-v) as nat)
    } else {
        u64_dec(v as nat)
    }
}

/// One decimal digit as a one-character string slice.
fn digit_str(d: u64) -> (r: &'static str)
    requires
        d < 10,
    ensures
        r@ =~= seq![digit_char(d as int)],
{
    if d == 0 {
        proof {
            reveal_strlit("0");
        }
        "0"
    } else if d == 1 {
        proof {
            reveal_strlit("1");
        }
        "1"
    } else if d == 2 {
        proof {
            reveal_strlit("2");
        }
        "2"
    } else if d == 3 {
        proof {
            reveal_strlit("3");
        }
        "3"
    } else if d == 4 {
        proof {
            reveal_strlit("4");
        }
        "4"
    } else if d == 5 {
        proof {
            reveal_strlit("5");
        }
        "5"
    } else if d == 6 {
        proof {
            reveal_strlit("6");
        }
        "6"
    } else if d == 7 {
        proof {
            reveal_strlit("7");
        }
        "7"
    } else if d == 8 {
        proof {
            reveal_strlit("8");
        }
        "8"
    } else {
        proof {
            reveal_strlit("9");
        }
        "9"
    }
}

/// The digit characters of `ds` read back to front.
pub open spec fn rev_chars(ds: Seq<u64>) -> Seq<char> {
    Seq::new(ds.len(), |i: int| digit_char(ds[ds.len() - 1 - i] as int))
}

/// Append the decimal text of `n` to `out`.
#[verifier::loop_isolation(false)]
pub fn write_u64(out: &mut String, n: u64)
    ensures
        final(out)@ == old(out)@ + u64_dec(n as nat),
{
    let ghost out0 = out@;
    let mut digs: Vec<u64> = Vec::new();
    let mut m: u64 = n;
    while m >= 10
        invariant
            u64_dec(n as nat) =~= u64_dec(m as nat) + rev_chars(digs@),
            forall|i: int| 0 <= i < digs@.len() ==> #[trigger] digs@[i] < 10,
        decreases m,
    {
        let d = m % 10;
        let ghost pre = digs@;
        digs.push(d);
        proof {
            assert(m / 10 < m && m % 10 < 10 && (m / 10) as nat == (m as nat) / 10 && (m % 10)
                as nat == (m as nat) % 10) by (nonlinear_arith)
                requires
                    m >= 10,
            ;
            assert(rev_chars(digs@) =~= seq![digit_char(d as int)] + rev_chars(pre));
            assert(u64_dec((m / 10) as nat) + rev_chars(digs@) =~= (u64_dec((m / 10) as nat)
                + seq![digit_char(d as int)]) + rev_chars(pre));
            assert(u64_dec((m / 10) as nat).push(digit_char(((m as nat) % 10) as int))
                =~= u64_dec((m / 10) as nat) + seq![digit_char(d as int)]);
        }
        m = m / 10;
    }
    let ghost pre = digs@;
    digs.push(m);
    proof {
        assert(rev_chars(digs@) =~= seq![digit_char(m as int)] + rev_chars(pre));
        assert(u64_dec(n as nat) =~= rev_chars(digs@));
    }
    let k = digs.len();
    let mut i: usize = 0;
    while i < k
        invariant
            k == digs@.len(),
            0 <= i <= k,
            out@ =~= out0 + rev_chars(digs@).take(i as int),
        decreases k - i,
    {
        let d = digs[k - 1 - i];
        out.append(digit_str(d));
        proof {
            assert(out@ =~= out0 + rev_chars(digs@).take(i + 1));
        }
        i = i + 1;
    }
    proof {
        assert(rev_chars(digs@).take(k as int) =~= rev_chars(digs@));
    }
}

/// Append the decimal text of `v` to `out`.
pub fn write_i64(out: &mut String, v: i64)
    ensures
        final(out)@ == old(out)@ + i64_dec(v as int),
{
    let ghost out0 = out@;
    if v < 0 {
        proof {
            reveal_strlit("-");
        }
        out.append("-");
        proof {
            assert(out@ =~= out0 + seq!['-']);
        }
        let m: u64 = ((-(v + 1)) as u64) + 1;
        proof {
            assert(m as nat == -(v as int));
        }
        write_u64(out, m);
        proof {
            assert(out@ =~= out0 + (seq!['-'] + u64_dec(m as nat)));
        }
    } else {
        write_u64(out, v as u64);
    }
}

/// The decimal text of `v` as a fresh string.
pub fn i64_text(v: i64) -> (r: String)
    ensures
        r@ == i64_dec(v as int),
{
    let mut s = String::new();
    write_i64(&mut s, v);
    proof {
        assert(Seq::<char>::empty() + i64_dec(v as int) =~= i64_dec(v as int));
    }
    s
}

/// The text of an operation as the trace prints it: the operator symbol,
/// or `int` and the value for a literal.
pub open spec fn spec_op_text(op: ASTNodeType) -> Seq<char> {
    match op {
        ASTNodeType::Add => "+"@,
        ASTNodeType::Subtract => "-"@,
        ASTNodeType::Multiply => "*"@,
        ASTNodeType::Divide => "/"@,
        ASTNodeType::IntLit(v) => "int "@ + i64_dec(v as int),
    }
}

/// Append the trace text of an operation to `out`.
pub fn write_op(out: &mut String, op: ASTNodeType)
    ensures
        final(out)@ == old(out)@ + spec_op_text(op),
{
    match op {
        ASTNodeType::Add => {
            proof {
                reveal_strlit("+");
            }
            out.append("+");
        },
        ASTNodeType::Subtract => {
            proof {
                reveal_strlit("-");
            }
            out.append("-");
        },
        ASTNodeType::Multiply => {
            proof {
                reveal_strlit("*");
            }
            out.append("*");
        },
        ASTNodeType::Divide => {
            proof {
                reveal_strlit("/");
            }
            out.append("/");
        },
        ASTNodeType::IntLit(v) => {
            let ghost out0 = out@;
            out.append("int ");
            write_i64(out, v);
            proof {
                assert(out@ =~= out0 + ("int "@ + i64_dec(v as int)));
            }
        },
    }
}

/// One trace line as text: `int v` for a leaf, `l op r` for a binary
/// operation, each ended by a newline.
pub open spec fn spec_render_line(l: TraceLine) -> Seq<char> {
    match l {
        TraceLine::Leaf { value } => "int "@ + i64_dec(value as int) + "\n"@,
        TraceLine::Bin { left, op, right } => i64_dec(left as int) + " "@ + spec_op_text(op) + " "@
            + i64_dec(right as int) + "\n"@,
    }
}

/// The text of a whole trace, line by line.
pub open spec fn spec_render_trace(tr: Seq<TraceLine>) -> Seq<char>
    decreases tr.len(),
{
    if tr.len() == 0 {
        Seq::empty()
    } else {
        spec_render_line(tr[0]) + spec_render_trace(tr.drop_first())
    }
}

/// Rendering distributes over adding a line at the end of a trace.
pub proof fn lemma_render_snoc(tr: Seq<TraceLine>, l: TraceLine)
    ensures
        spec_render_trace(tr.push(l)) == spec_render_trace(tr) + spec_render_line(l),
    decreases tr.len(),
{
    if tr.len() == 0 {
        let single = tr.push(l);
        assert(single[0] == l);
        assert(single.drop_first() =~= Seq::<TraceLine>::empty());
        assert(spec_render_trace(single.drop_first()) == Seq::<char>::empty());
        assert(spec_render_line(l) + Seq::<char>::empty() =~= spec_render_line(l));
        assert(spec_render_trace(single) == spec_render_line(l));
        assert(Seq::<char>::empty() + spec_render_line(l) =~= spec_render_line(l));
    } else {
        assert(tr.push(l).drop_first() =~= tr.drop_first().push(l));
        lemma_render_snoc(tr.drop_first(), l);
        assert(spec_render_line(tr[0]) + (spec_render_trace(tr.drop_first())
            + spec_render_line(l)) =~= (spec_render_line(tr[0]) + spec_render_trace(
            tr.drop_first(),
        )) + spec_render_line(l));
    }
}

/// Append the text of one trace line to `out`.
pub fn write_trace_line(out: &mut String, l: TraceLine)
    ensures
        final(out)@ == old(out)@ + spec_render_line(l),
{
    let ghost out0 = out@;
    match l {
        TraceLine::Leaf { value } => {
            out.append("int ");
            write_i64(out, value);
            out.append("\n");
            proof {
                assert(out@ =~= out0 + ("int "@ + i64_dec(value as int) + "\n"@));
            }
        },
        TraceLine::Bin { left, op, right } => {
            write_i64(out, left);
            out.append(" ");
            write_op(out, op);
            out.append(" ");
            write_i64(out, right);
            out.append("\n");
            proof {
                assert(out@ =~= out0 + (i64_dec(left as int) + " "@ + spec_op_text(op) + " "@
                    + i64_dec(right as int) + "\n"@));
            }
        },
    }
}

/// The whole trace as text, one line per entry, in order.
#[verifier::loop_isolation(false)]
pub fn render_trace(tr: &Vec<TraceLine>) -> (r: String)
    ensures
        r@ == spec_render_trace(tr@),
{
    let mut out = String::new();
    let mut i: usize = 0;
    while i < tr.len()
        invariant
            0 <= i <= tr@.len(),
            out@ =~= spec_render_trace(tr@.take(i as int)),
        decreases tr@.len() - i,
    {
        write_trace_line(&mut out, tr[i]);
        proof {
            assert(tr@.take(i + 1) =~= tr@.take(i as int).push(tr@[i as int]));
            lemma_render_snoc(tr@.take(i as int), tr@[i as int]);
        }
        i = i + 1;
    }
    proof {
        assert(tr@.take(tr@.len() as int) =~= tr@);
    }
    out
}

} // verus!
