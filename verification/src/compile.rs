//! The bytecode plan: what the compiler emits for each expression, one plan
//! item per slot, and the disassembler over emitted programs.

use crate::cell::Ast;
use crate::heap::{value_rep, HeapModel};
use crate::vcell::{opcode_text, vcell_text, OpCode, VCell};
use vstd::prelude::*;
use vstd::string::StringExecFns;

verus! {

/// One slot of a compiled program: an opcode, or the quoted value whose
/// heap pointer follows a `Quote`.
pub ghost enum PlanItem {
    Op(OpCode),
    Quoted(Ast),
}

/// Why compilation failed.
pub ghost enum CompIssue {
    NotPair(Ast),
    Unknown(Ast),
}

/// What compiling an expression emits: a number quotes itself; `(quote d)`
/// emits `Quote` and the datum; `(car e)` and `(cdr e)` emit the argument's
/// code followed by the opcode; any other head is an unknown procedure.
pub open spec fn expr_plan(c: Ast) -> Result<Seq<PlanItem>, CompIssue>
    decreases c,
{
    match c {
        Ast::Pair(car0, cdr0) => {
            let car = *car0;
            let cdr = *cdr0;
            if car == Ast::Symbol("quote"@) {
                if !(cdr is Pair) {
                    Err(CompIssue::NotPair(cdr))
                } else {
                    Ok(seq![PlanItem::Op(OpCode::Quote), PlanItem::Quoted(*cdr->Pair_0)])
                }
            } else if car == Ast::Symbol("car"@) {
                if !(cdr is Pair) {
                    Err(CompIssue::NotPair(cdr))
                } else {
                    match expr_plan(*cdr->Pair_0) {
                        Ok(s) => Ok(s.push(PlanItem::Op(OpCode::Car))),
                        Err(e) => Err(e),
                    }
                }
            } else if car == Ast::Symbol("cdr"@) {
                if !(cdr is Pair) {
                    Err(CompIssue::NotPair(cdr))
                } else {
                    match expr_plan(*cdr->Pair_0) {
                        Ok(s) => Ok(s.push(PlanItem::Op(OpCode::Cdr))),
                        Err(e) => Err(e),
                    }
                }
            } else {
                Err(CompIssue::Unknown(car))
            }
        },
        Ast::Number(_) => Ok(seq![PlanItem::Op(OpCode::Quote), PlanItem::Quoted(c)]),
        _ => Err(CompIssue::Unknown(c)),
    }
}

/// A whole program: the expression's code closed by one `Halt`.
pub open spec fn compile_plan(c: Ast) -> Result<Seq<PlanItem>, CompIssue> {
    match expr_plan(c) {
        Ok(s) => Ok(s.push(PlanItem::Op(OpCode::Halt))),
        Err(e) => Err(e),
    }
}

/// The error each compile failure is reported as.
pub open spec fn comp_issue_ok(i: CompIssue, e: crate::vm::Error) -> bool {
    match i {
        CompIssue::NotPair(a) => e matches crate::vm::Error::ExpectedPairButFound(t) && t@
            == crate::cell::ast_text(a),
        CompIssue::Unknown(a) => e matches crate::vm::Error::UnknownProcedure(t) && t@
            == crate::cell::ast_text(a),
    }
}

/// The slots from `off` on realize the plan items: each opcode in place,
/// each quoted value as a pointer to its heap representation.
pub open spec fn seg_matches(m: HeapModel, bc: Seq<VCell>, off: int, items: Seq<PlanItem>) -> bool {
    &&& bc.len() == off + items.len()
    &&& 0 <= off
    &&& forall|k: int|
        0 <= k < items.len() ==> (match #[trigger] items[k] {
            PlanItem::Op(op) => bc[off + k] == VCell::OpCode(op),
            PlanItem::Quoted(a) => bc[off + k] is Ptr && value_rep(m, bc[off + k], a),
        })
}

/// A whole program realizes its plan.
pub open spec fn prog_matches(m: HeapModel, bc: Seq<VCell>, items: Seq<PlanItem>) -> bool {
    seg_matches(m, bc, 0, items)
}

/// A realized segment survives a heap change that only fills free slots.
pub proof fn lemma_seg_frame(
    m0: HeapModel,
    m1: HeapModel,
    bc: Seq<VCell>,
    off: int,
    items: Seq<PlanItem>,
)
    requires
        crate::heap::heap_extends(m0, m1),
        seg_matches(m0, bc, off, items),
    ensures
        seg_matches(m1, bc, off, items),
{
    assert forall|k: int|
        0 <= k < items.len() implies (match #[trigger] items[k] {
        PlanItem::Op(op) => bc[off + k] == VCell::OpCode(op),
        PlanItem::Quoted(a) => bc[off + k] is Ptr && value_rep(m1, bc[off + k], a),
    }) by {
        match items[k] {
            PlanItem::Op(_) => {},
            PlanItem::Quoted(a) => {
                crate::heap::lemma_rep_frame(m0, m1, bc[off + k], a);
            },
        }
    }
}

/// One disassembled line per instruction: the mnemonic and the rendered
/// operands; `Quote` consumes the slot after it, an unknown slot reads as
/// `UNKNOWN`. `None` when a `Quote` stands last with no operand.
pub open spec fn spec_decompile(prog: Seq<VCell>, i: int) -> Option<Seq<(Seq<char>, Seq<Seq<char>>)>>
    decreases prog.len() - i,
{
    if i < 0 || i >= prog.len() {
        Some(Seq::empty())
    } else {
        match prog[i] {
            VCell::OpCode(op) => {
                if op is Quote {
                    if i + 1 < prog.len() {
                        match spec_decompile(prog, i + 2) {
                            Some(rest) => Some(
                                seq![(opcode_text(op), seq![vcell_text(prog[i + 1])])] + rest,
                            ),
                            None => None,
                        }
                    } else {
                        None
                    }
                } else {
                    match spec_decompile(prog, i + 1) {
                        Some(rest) => Some(seq![(opcode_text(op), Seq::<Seq<char>>::empty())] + rest),
                        None => None,
                    }
                }
            },
            _ => match spec_decompile(prog, i + 1) {
                Some(rest) => Some(seq![("UNKNOWN"@, Seq::<Seq<char>>::empty())] + rest),
                None => None,
            },
        }
    }
}

/// The lines' values.
pub open spec fn line_views(s: Seq<(String, Vec<String>)>) -> Seq<(Seq<char>, Seq<Seq<char>>)> {
    s.map_values(|l: (String, Vec<String>)| (l.0@, l.1@.map_values(|x: String| x@)))
}

/// Disassemble a program into `(mnemonic, operands)` lines.
pub fn decompile(program: &Vec<VCell>) -> (r: Vec<(String, Vec<String>)>)
    requires
        spec_decompile(program@, 0) is Some,
    ensures
        Some(line_views(r@)) == spec_decompile(program@, 0),
    decreases program@.len(),
{
    let mut out: Vec<(String, Vec<String>)> = Vec::new();
    let mut i: usize = 0;
    proof {
        assert(line_views(out@) =~= Seq::<(Seq<char>, Seq<Seq<char>>)>::empty());
    }
    decompile_from(program, &mut i, &mut out);
    out
}

/// Disassemble from position `*i` to the end, appending lines.
#[verifier::loop_isolation(false)]
fn decompile_from(program: &Vec<VCell>, i: &mut usize, out: &mut Vec<(String, Vec<String>)>)
    requires
        spec_decompile(program@, *old(i) as int) is Some,
    ensures
        ({
            let rest = spec_decompile(program@, *old(i) as int)->Some_0;
            line_views(final(out)@) == line_views(old(out)@) + rest
        }),
    decreases program@.len() - *old(i),
{
    let ghost out0 = line_views(out@);
    if *i >= program.len() {
        proof {
            assert(line_views(out@) =~= out0 + Seq::<(Seq<char>, Seq<Seq<char>>)>::empty());
        }
        return ;
    }
    match &program[*i] {
        VCell::OpCode(op) => {
            match op {
                OpCode::Quote => {
                    let pos = *i;
                    let operand = program[pos + 1].to_text();
                    let ghost opv = operand@;
                    let mut ops: Vec<String> = Vec::new();
                    ops.push(operand);
                    let line = (String::from_str("QUOTE"), ops);
                    let ghost linev = (line.0@, line.1@.map_values(|x: String| x@));
                    out.push(line);
                    proof {
                        assert(line_views(out@) =~= out0 + seq![linev]);
                        assert(linev.1 =~= seq![opv]);
                    }
                    *i = pos + 2;
                    decompile_from(program, i, out);
                    proof {
                        let rest = spec_decompile(program@, pos + 2)->Some_0;
                        assert((out0 + seq![linev]) + rest =~= out0 + (seq![linev] + rest));
                    }
                },
                _ => {
                    let pos = *i;
                    let name = match op {
                        OpCode::Car => String::from_str("CAR"),
                        OpCode::Cdr => String::from_str("CDR"),
                        _ => String::from_str("HALT"),
                    };
                    let line = (name, Vec::<String>::new());
                    let ghost linev = (line.0@, line.1@.map_values(|x: String| x@));
                    out.push(line);
                    proof {
                        assert(linev.1 =~= Seq::<Seq<char>>::empty());
                        assert(line_views(out@) =~= out0 + seq![linev]);
                    }
                    *i = pos + 1;
                    decompile_from(program, i, out);
                    proof {
                        let rest = spec_decompile(program@, pos + 1)->Some_0;
                        assert((out0 + seq![linev]) + rest =~= out0 + (seq![linev] + rest));
                    }
                },
            }
        },
        _ => {
            let pos = *i;
            let line = (String::from_str("UNKNOWN"), Vec::<String>::new());
            let ghost linev = (line.0@, line.1@.map_values(|x: String| x@));
            out.push(line);
            proof {
                assert(linev.1 =~= Seq::<Seq<char>>::empty());
                assert(line_views(out@) =~= out0 + seq![linev]);
            }
            *i = pos + 1;
            decompile_from(program, i, out);
            proof {
                let rest = spec_decompile(program@, pos + 1)->Some_0;
                assert((out0 + seq![linev]) + rest =~= out0 + (seq![linev] + rest));
            }
        },
    }
}

/// The text of the disassembly: per line the mnemonic, one space, the
/// operands joined with commas, and a newline.
pub open spec fn lines_text(lines: Seq<(Seq<char>, Seq<Seq<char>>)>) -> Seq<char>
    decreases lines.len(),
{
    if lines.len() == 0 {
        Seq::empty()
    } else {
        lines[0].0 + " "@ + join_commas(lines[0].1) + "\n"@ + lines_text(lines.drop_first())
    }
}

pub open spec fn join_commas(items: Seq<Seq<char>>) -> Seq<char>
    decreases items.len(),
{
    if items.len() == 0 {
        Seq::empty()
    } else if items.len() == 1 {
        items[0]
    } else {
        items[0] + ","@ + join_commas(items.drop_first())
    }
}

/// Render a program's disassembly as text, one instruction per line.
pub fn decompile_text(program: &Vec<VCell>) -> (r: String)
    requires
        spec_decompile(program@, 0) is Some,
    ensures
        r@ == lines_text(spec_decompile(program@, 0)->Some_0),
{
    let lines = decompile(program);
    let mut text = String::new();
    let ghost all = line_views(lines@);
    let mut i: usize = 0;
    proof {
        assert(all.skip(0) =~= all);
    }
    while i < lines.len()
        invariant
            i <= lines.len(),
            all.len() == lines.len(),
            all == line_views(lines@),
            text@ + lines_text(all.skip(i as int)) == lines_text(all),
        decreases lines.len() - i,
    {
        proof {
            assert(all[i as int] == (lines@[i as int].0@, lines@[i as int].1@.map_values(
                |x: String| x@,
            )));
        }
        text.append(lines[i].0.as_str());
        text.append(" ");
        let joined = join_with_commas(&lines[i].1);
        text.append(joined.as_str());
        text.append("\n");
        proof {
            let tail = all.skip(i as int);
            assert(tail[0] == all[i as int]);
            assert(tail.drop_first() =~= all.skip(i + 1));
            crate::vcell::seq_assoc_3::<char>(all[i as int].0, " "@, joined@);
            crate::vcell::seq_assoc_3::<char>(all[i as int].0 + " "@, joined@, "\n"@);
            crate::vcell::seq_assoc_3::<char>(
                all[i as int].0 + " "@ + joined@,
                "\n"@,
                lines_text(all.skip(i + 1)),
            );
            crate::vcell::seq_assoc_3::<char>(
                text@,
                all[i as int].0 + " "@ + joined@ + "\n"@,
                lines_text(all.skip(i + 1)),
            );
        }
        i = i + 1;
    }
    proof {
        assert(lines_text(all.skip(lines.len() as int)) =~= Seq::<char>::empty());
        assert(text@ + Seq::<char>::empty() =~= text@);
    }
    text
}

/// Join rendered operands with commas.
fn join_with_commas(items: &Vec<String>) -> (r: String)
    ensures
        r@ == join_commas(items@.map_values(|x: String| x@)),
{
    let ghost m = items@.map_values(|x: String| x@);
    let mut r = String::new();
    let mut i: usize = 0;
    proof {
        assert(m.skip(0) =~= m);
    }
    while i < items.len()
        invariant
            i <= items.len(),
            m.len() == items.len(),
            m == items@.map_values(|x: String| x@),
            r@ + join_commas(m.skip(i as int)) == join_commas(m),
        decreases items.len() - i,
    {
        let ghost r0 = r@;
        proof {
            assert(m[i as int] == items@[i as int]@);
            lemma_join_step(m, i as int);
        }
        r.append(items[i].as_str());
        if i + 1 < items.len() {
            r.append(",");
            proof {
                crate::vcell::seq_assoc_3::<char>(r0, m[i as int], ","@);
                crate::vcell::seq_assoc_3::<char>(r0, m[i as int] + ","@, join_commas(
                    m.skip(i + 1),
                ));
                crate::vcell::seq_assoc_3::<char>(m[i as int], ","@, join_commas(m.skip(i + 1)));
            }
        } else {
            proof {
                assert(m.skip(i + 1) =~= Seq::<Seq<char>>::empty());
                crate::vcell::seq_assoc_3::<char>(r0, m[i as int], Seq::<char>::empty());
                assert(m[i as int] + Seq::<char>::empty() =~= m[i as int]);
            }
        }
        i = i + 1;
    }
    proof {
        assert(m.skip(items.len() as int) =~= Seq::<Seq<char>>::empty());
        assert(r@ + Seq::<char>::empty() =~= r@);
    }
    r
}

/// One step of the comma join.
proof fn lemma_join_step(m: Seq<Seq<char>>, i: int)
    requires
        0 <= i < m.len(),
    ensures
        i + 1 < m.len() ==> join_commas(m.skip(i)) == m[i] + ","@ + join_commas(m.skip(i + 1)),
        i + 1 == m.len() ==> join_commas(m.skip(i)) == m[i],
{
    let t = m.skip(i);
    assert(t[0] == m[i]);
    if i + 1 < m.len() {
        assert(t.len() > 1);
        assert(t.drop_first() =~= m.skip(i + 1));
        crate::vcell::seq_assoc_3::<char>(t[0], ","@, join_commas(t.drop_first()));
    } else {
        assert(t.len() == 1);
    }
}

} // verus!
