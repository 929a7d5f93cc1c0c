use vstd::prelude::*;
use crate::ast::{ASTNode, ASTNodeType};
use crate::error::CompileError;
use crate::text::{i64_dec, write_i64};

verus! {

/// A bank where all four scratch registers are free.
pub open spec fn all_free() -> Seq<bool> {
    seq![true, true, true, true]
}

/// How many registers of the bank are free.
pub open spec fn count_free(b: Seq<bool>) -> int {
    (if b[0] {
        1int
    } else {
        0int
    }) + (if b[1] {
        1int
    } else {
        0int
    }) + (if b[2] {
        1int
    } else {
        0int
    }) + (if b[3] {
        1int
    } else {
        0int
    })
}

/// Linear-scan allocation: the first free register, marked busy; `None`
/// when every register is busy.
pub open spec fn spec_alloc(b: Seq<bool>) -> Option<(int, Seq<bool>)> {
    if b[0] {
        Some((0int, b.update(0, false)))
    } else if b[1] {
        Some((1int, b.update(1, false)))
    } else if b[2] {
        Some((2int, b.update(2, false)))
    } else if b[3] {
        Some((3int, b.update(3, false)))
    } else {
        None
    }
}

/// The assembly name of a scratch register.
pub open spec fn reg_name(r: int) -> Seq<char> {
    if r == 0 {
        "%r8"@
    } else if r == 1 {
        "%r9"@
    } else if r == 2 {
        "%r10"@
    } else {
        "%r11"@
    }
}

/// The instruction that loads an immediate into a register.
pub open spec fn load_text(v: int, r: int) -> Seq<char> {
    "\tmovq\t$"@ + i64_dec(v) + ", "@ + reg_name(r) + "\n"@
}

/// The instruction that adds register `r1` into `r2`.
pub open spec fn add_text(r1: int, r2: int) -> Seq<char> {
    "\taddq\t"@ + reg_name(r1) + ", "@ + reg_name(r2) + "\n"@
}

/// The instruction that subtracts register `r2` from `r1` in place.
pub open spec fn sub_text(r1: int, r2: int) -> Seq<char> {
    "\tsubq\t"@ + reg_name(r2) + ", "@ + reg_name(r1) + "\n"@
}

/// The instruction that multiplies register `r1` into `r2`.
pub open spec fn mul_text(r1: int, r2: int) -> Seq<char> {
    "\timulq\t"@ + reg_name(r1) + ", "@ + reg_name(r2) + "\n"@
}

/// The sequence that divides register `r1` by `r2` into `r1`.
pub open spec fn div_text(r1: int, r2: int) -> Seq<char> {
    "\tmovq\t"@ + reg_name(r1) + ",%rax\n\tcqo\n\tidivq\t"@ + reg_name(r2) + "\n\tmovq\t%rax,"@
        + reg_name(r1) + "\n"@
}

/// The call that prints the value held in a register.
pub open spec fn printint_text(r: int) -> Seq<char> {
    "\tmovq\t"@ + reg_name(r) + ", %rdi\n\tcall\tprintint\n"@
}

/// The fixed prologue: a helper routine that prints one full signed
/// 64-bit integer through the C runtime, and the program entry point.
pub open spec fn preamble_text() -> Seq<char> {
    "\t.text\n.LC0:\n\t.string\t\"%ld\\n\"\nprintint:\n\tpushq\t%rbp\n\tmovq\t%rsp, %rbp\n\tsubq\t$16, %rsp\n\tmovq\t%rdi, -8(%rbp)\n\tmovq\t-8(%rbp), %rax\n\tmovq\t%rax, %rsi\n\tleaq\t.LC0(%rip), %rdi\n\tmovl\t$0, %eax\n\tcall\tprintf@PLT\n\tnop\n\tleave\n\tret\n\n\t.globl\tmain\n\t.type\tmain, @function\nmain:\n\tpushq\t%rbp\n\tmovq\t%rsp, %rbp\n"@
}

/// The fixed epilogue: a clean return to the caller.
pub open spec fn postamble_text() -> Seq<char> {
    "\tmovl\t$0, %eax\n\tpopq\t%rbp\n\tret\n"@
}

/// How many registers a tree needs when evaluated left to right with the
/// fixed retirement policy: a leaf takes one register, and a binary node
/// holds its left result in one register while the right side runs.
pub open spec fn spec_need(n: ASTNode) -> int
    decreases n,
{
    match n.op {
        ASTNodeType::IntLit(_) => 1,
        _ => {
            let nl = match n.left {
                Some(l) => spec_need(*l),
                None => 0,
            };
            let nr = match n.right {
                Some(r) => spec_need(*r),
                None => 0,
            };
            if nl >= nr + 1 {
                nl
            } else {
                nr + 1
            }
        },
    }
}

/// What generating code for a tree produces: the emitted text, the
/// register holding the result, and the bank afterwards; or register
/// pool exhaustion.
pub enum GenStep {
    Emit { text: Seq<char>, reg: int, bank: Seq<bool> },
    Oor,
}

/// Postorder code generation over a register bank: a leaf loads its value
/// into a fresh register; a binary node generates its left side, then its
/// right side, then one operation, retiring one of the two registers —
/// commutative operations keep the right register, the others compute in
/// place on the left.
pub open spec fn spec_gen(n: ASTNode, b: Seq<bool>) -> GenStep
    decreases n,
{
    match n.op {
        ASTNodeType::IntLit(v) => match spec_alloc(b) {
            Some((r, b2)) => GenStep::Emit { text: load_text(v as int, r), reg: r, bank: b2 },
            None => GenStep::Oor,
        },
        op => match (n.left, n.right) {
            (Some(l), Some(rn)) => match spec_gen(*l, b) {
                GenStep::Emit { text: t1, reg: r1, bank: b1 } => match spec_gen(*rn, b1) {
                    GenStep::Emit { text: t2, reg: r2, bank: b2 } => match op {
                        ASTNodeType::Add => GenStep::Emit {
                            text: t1 + t2 + add_text(r1, r2),
                            reg: r2,
                            bank: b2.update(r1, true),
                        },
                        ASTNodeType::Multiply => GenStep::Emit {
                            text: t1 + t2 + mul_text(r1, r2),
                            reg: r2,
                            bank: b2.update(r1, true),
                        },
                        ASTNodeType::Subtract => GenStep::Emit {
                            text: t1 + t2 + sub_text(r1, r2),
                            reg: r1,
                            bank: b2.update(r2, true),
                        },
                        _ => GenStep::Emit {
                            text: t1 + t2 + div_text(r1, r2),
                            reg: r1,
                            bank: b2.update(r2, true),
                        },
                    },
                    GenStep::Oor => GenStep::Oor,
                },
                GenStep::Oor => GenStep::Oor,
            },
            _ => GenStep::Oor,
        },
    }
}

/// Successful generation returns a register that was free before and is
/// busy after, and touches no other register.
pub proof fn lemma_gen(n: ASTNode, b: Seq<bool>)
    requires
        n.wf(),
        b.len() == 4,
    ensures
        (match spec_gen(n, b) {
            GenStep::Emit { text, reg, bank } => 0 <= reg < 4 && bank.len() == 4 && b[reg] == true
                && bank[reg] == false && (forall|i: int|
                0 <= i < 4 && i != reg ==> bank[i] == b[i]),
            GenStep::Oor => true,
        }),
    decreases n,
{
    match n.op {
        ASTNodeType::IntLit(_) => {},
        _ => match (n.left, n.right) {
            (Some(l), Some(rn)) => {
                lemma_gen(*l, b);
                if spec_gen(*l, b) is Emit {
                    lemma_gen(*rn, spec_gen(*l, b)->bank);
                }
            },
            _ => {},
        },
    }
}

/// Code generation succeeds exactly when the tree's register demand fits
/// the free registers of the bank.
pub proof fn lemma_gen_need(n: ASTNode, b: Seq<bool>)
    requires
        n.wf(),
        b.len() == 4,
    ensures
        (spec_gen(n, b) is Emit) <==> spec_need(n) <= count_free(b),
    decreases n,
{
    match n.op {
        ASTNodeType::IntLit(_) => {},
        _ => match (n.left, n.right) {
            (Some(l), Some(rn)) => {
                lemma_gen_need(*l, b);
                lemma_gen(*l, b);
                if spec_gen(*l, b) is Emit {
                    let b1 = spec_gen(*l, b)->bank;
                    assert(count_free(b1) == count_free(b) - 1);
                    lemma_gen_need(*rn, b1);
                }
            },
            _ => {},
        },
    }
}

/// The assembly backend: the bank of four scratch registers (true marks
/// a free register) and the output text.
pub struct AsmGen {
    pub free_reg: Vec<bool>,
    pub out: String,
}

impl AsmGen {
    /// Exactly four register slots.
    pub open spec fn wf(self) -> bool {
        self.free_reg@.len() == 4
    }

    /// A fresh generator: all registers free, no output.
    pub fn new() -> (g: AsmGen)
        ensures
            g.wf(),
            g.free_reg@ =~= all_free(),
            g.out@ == Seq::<char>::empty(),
    {
        let mut free_reg: Vec<bool> = Vec::new();
        free_reg.push(true);
        free_reg.push(true);
        free_reg.push(true);
        free_reg.push(true);
        AsmGen { free_reg, out: String::new() }
    }

    /// Mark every register free; emitted text is untouched.
    pub fn free_all_registers(&mut self)
        requires
            old(self).wf(),
        ensures
            final(self).wf(),
            final(self).free_reg@ =~= all_free(),
            final(self).out == old(self).out,
    {
        self.free_reg[0] = true;
        self.free_reg[1] = true;
        self.free_reg[2] = true;
        self.free_reg[3] = true;
    }

    /// Allocate the first free register by linear scan, or report pool
    /// exhaustion.
    pub fn alloc_register(&mut self) -> (r: Result<usize, CompileError>)
        requires
            old(self).wf(),
        ensures
            final(self).wf(),
            final(self).out == old(self).out,
            (match spec_alloc(old(self).free_reg@) {
                Some((reg, b2)) => r == Ok::<usize, CompileError>(reg as usize)
                    && final(self).free_reg@ == b2,
                None => r == Err::<usize, CompileError>(CompileError::OutOfRegisters)
                    && final(self).free_reg == old(self).free_reg,
            }),
    {
        if self.free_reg[0] {
            self.free_reg[0] = false;
            Ok(0)
        } else if self.free_reg[1] {
            self.free_reg[1] = false;
            Ok(1)
        } else if self.free_reg[2] {
            self.free_reg[2] = false;
            Ok(2)
        } else if self.free_reg[3] {
            self.free_reg[3] = false;
            Ok(3)
        } else {
            Err(CompileError::OutOfRegisters)
        }
    }

    /// Return a register to the bank. Freeing a register that is already
    /// free would be an internal inconsistency, so a busy register is
    /// demanded up front and the impossibility is proved at each call.
    pub fn free_register(&mut self, reg: usize)
        requires
            old(self).wf(),
            reg < 4,
            old(self).free_reg@[reg as int] == false,
        ensures
            final(self).wf(),
            final(self).out == old(self).out,
            final(self).free_reg@ == old(self).free_reg@.update(reg as int, true),
    {
        self.free_reg[reg] = true;
    }

    /// The assembly name of a register.
    fn reg_name_str(r: usize) -> (s: &'static str)
        requires
            r < 4,
        ensures
            s@ == reg_name(r as int),
    {
        if r == 0 {
            "%r8"
        } else if r == 1 {
            "%r9"
        } else if r == 2 {
            "%r10"
        } else {
            "%r11"
        }
    }

    /// Load an immediate into a fresh register.
    fn cg_load(&mut self, v: i64) -> (r: Result<usize, CompileError>)
        requires
            old(self).wf(),
        ensures
            final(self).wf(),
            (match spec_alloc(old(self).free_reg@) {
                Some((reg, b2)) => r == Ok::<usize, CompileError>(reg as usize)
                    && final(self).free_reg@ == b2 && final(self).out@ == old(self).out@
                    + load_text(v as int, reg),
                None => r == Err::<usize, CompileError>(CompileError::OutOfRegisters)
                    && final(self).free_reg == old(self).free_reg && final(self).out == old(
                    self,
                ).out,
            }),
    {
        let ghost out0 = self.out@;
        let reg = match self.alloc_register() {
            Ok(r) => r,
            Err(e) => {
                return Err(e);
            },
        };
        self.out.append("\tmovq\t$");
        write_i64(&mut self.out, v);
        self.out.append(", ");
        self.out.append(Self::reg_name_str(reg));
        self.out.append("\n");
        proof {
            assert(self.out@ =~= out0 + load_text(v as int, reg as int));
        }
        Ok(reg)
    }

    /// Add `r1` into `r2`, retire `r1`, and leave the result in `r2`.
    fn cg_add(&mut self, r1: usize, r2: usize) -> (r: usize)
        requires
            old(self).wf(),
            r1 < 4,
            r2 < 4,
            old(self).free_reg@[r1 as int] == false,
        ensures
            final(self).wf(),
            r == r2,
            final(self).free_reg@ == old(self).free_reg@.update(r1 as int, true),
            final(self).out@ == old(self).out@ + add_text(r1 as int, r2 as int),
    {
        let ghost out0 = self.out@;
        self.out.append("\taddq\t");
        self.out.append(Self::reg_name_str(r1));
        self.out.append(", ");
        self.out.append(Self::reg_name_str(r2));
        self.out.append("\n");
        self.free_register(r1);
        proof {
            assert(self.out@ =~= out0 + add_text(r1 as int, r2 as int));
        }
        r2
    }

    /// Subtract `r2` from `r1` in place, retire `r2`, and leave the
    /// result in `r1`.
    fn cg_sub(&mut self, r1: usize, r2: usize) -> (r: usize)
        requires
            old(self).wf(),
            r1 < 4,
            r2 < 4,
            old(self).free_reg@[r2 as int] == false,
        ensures
            final(self).wf(),
            r == r1,
            final(self).free_reg@ == old(self).free_reg@.update(r2 as int, true),
            final(self).out@ == old(self).out@ + sub_text(r1 as int, r2 as int),
    {
        let ghost out0 = self.out@;
        self.out.append("\tsubq\t");
        self.out.append(Self::reg_name_str(r2));
        self.out.append(", ");
        self.out.append(Self::reg_name_str(r1));
        self.out.append("\n");
        self.free_register(r2);
        proof {
            assert(self.out@ =~= out0 + sub_text(r1 as int, r2 as int));
        }
        r1
    }

    /// Multiply `r1` into `r2`, retire `r1`, and leave the result in `r2`.
    fn cg_mul(&mut self, r1: usize, r2: usize) -> (r: usize)
        requires
            old(self).wf(),
            r1 < 4,
            r2 < 4,
            old(self).free_reg@[r1 as int] == false,
        ensures
            final(self).wf(),
            r == r2,
            final(self).free_reg@ == old(self).free_reg@.update(r1 as int, true),
            final(self).out@ == old(self).out@ + mul_text(r1 as int, r2 as int),
    {
        let ghost out0 = self.out@;
        self.out.append("\timulq\t");
        self.out.append(Self::reg_name_str(r1));
        self.out.append(", ");
        self.out.append(Self::reg_name_str(r2));
        self.out.append("\n");
        self.free_register(r1);
        proof {
            assert(self.out@ =~= out0 + mul_text(r1 as int, r2 as int));
        }
        r2
    }

    /// Divide `r1` by `r2` through the accumulator, retire `r2`, and
    /// leave the result in `r1`.
    fn cg_div(&mut self, r1: usize, r2: usize) -> (r: usize)
        requires
            old(self).wf(),
            r1 < 4,
            r2 < 4,
            old(self).free_reg@[r2 as int] == false,
        ensures
            final(self).wf(),
            r == r1,
            final(self).free_reg@ == old(self).free_reg@.update(r2 as int, true),
            final(self).out@ == old(self).out@ + div_text(r1 as int, r2 as int),
    {
        let ghost out0 = self.out@;
        self.out.append("\tmovq\t");
        self.out.append(Self::reg_name_str(r1));
        self.out.append(",%rax\n\tcqo\n\tidivq\t");
        self.out.append(Self::reg_name_str(r2));
        self.out.append("\n\tmovq\t%rax,");
        self.out.append(Self::reg_name_str(r1));
        self.out.append("\n");
        self.free_register(r2);
        proof {
            assert(self.out@ =~= out0 + div_text(r1 as int, r2 as int));
        }
        r1
    }

    /// Print the value held in `reg` and retire it.
    fn cg_printint(&mut self, reg: usize)
        requires
            old(self).wf(),
            reg < 4,
            old(self).free_reg@[reg as int] == false,
        ensures
            final(self).wf(),
            final(self).free_reg@ == old(self).free_reg@.update(reg as int, true),
            final(self).out@ == old(self).out@ + printint_text(reg as int),
    {
        let ghost out0 = self.out@;
        self.out.append("\tmovq\t");
        self.out.append(Self::reg_name_str(reg));
        self.out.append(", %rdi\n\tcall\tprintint\n");
        self.free_register(reg);
        proof {
            assert(self.out@ =~= out0 + printint_text(reg as int));
        }
    }

    /// Reset the bank and emit the fixed prologue.
    fn cg_preamble(&mut self)
        requires
            old(self).wf(),
        ensures
            final(self).wf(),
            final(self).free_reg@ =~= all_free(),
            final(self).out@ == old(self).out@ + preamble_text(),
    {
        self.free_all_registers();
        self.out.append(
            "\t.text\n.LC0:\n\t.string\t\"%ld\\n\"\nprintint:\n\tpushq\t%rbp\n\tmovq\t%rsp, %rbp\n\tsubq\t$16, %rsp\n\tmovq\t%rdi, -8(%rbp)\n\tmovq\t-8(%rbp), %rax\n\tmovq\t%rax, %rsi\n\tleaq\t.LC0(%rip), %rdi\n\tmovl\t$0, %eax\n\tcall\tprintf@PLT\n\tnop\n\tleave\n\tret\n\n\t.globl\tmain\n\t.type\tmain, @function\nmain:\n\tpushq\t%rbp\n\tmovq\t%rsp, %rbp\n",
        );
    }

    /// Emit the fixed epilogue.
    fn cg_postamble(&mut self)
        requires
            old(self).wf(),
        ensures
            final(self).wf(),
            final(self).free_reg == old(self).free_reg,
            final(self).out@ == old(self).out@ + postamble_text(),
    {
        self.out.append("\tmovl\t$0, %eax\n\tpopq\t%rbp\n\tret\n");
    }

    /// Generate code for a whole tree in postorder, returning the register
    /// that holds its value; fails exactly when the bank runs out.
    pub fn gen_ast(&mut self, node: &ASTNode) -> (r: Result<usize, CompileError>)
        requires
            old(self).wf(),
            node.wf(),
        ensures
            final(self).wf(),
            (match spec_gen(*node, old(self).free_reg@) {
                GenStep::Emit { text, reg, bank } => r == Ok::<usize, CompileError>(reg as usize)
                    && final(self).out@ == old(self).out@ + text && final(self).free_reg@ == bank,
                GenStep::Oor => r == Err::<usize, CompileError>(CompileError::OutOfRegisters),
            }),
        decreases *node,
    {
        let ghost out0 = self.out@;
        let ghost b0 = self.free_reg@;
        match node.op {
            ASTNodeType::IntLit(v) => self.cg_load(v),
            op => match (&node.left, &node.right) {
                (Some(l), Some(rn)) => {
                    proof {
                        lemma_gen(**l, self.free_reg@);
                    }
                    let r1 = match self.gen_ast(&**l) {
                        Ok(r) => r,
                        Err(e) => {
                            return Err(e);
                        },
                    };
                    let ghost t1 = spec_gen(**l, b0)->text;
                    proof {
                        lemma_gen(**rn, self.free_reg@);
                    }
                    let r2 = match self.gen_ast(&**rn) {
                        Ok(r) => r,
                        Err(e) => {
                            return Err(e);
                        },
                    };
                    let ghost t2 = spec_gen(**rn, spec_gen(**l, b0)->bank)->text;
                    proof {
                        assert(r1 != r2);
                    }
                    let res: usize = match op {
                        ASTNodeType::Add => self.cg_add(r1, r2),
                        ASTNodeType::Subtract => self.cg_sub(r1, r2),
                        ASTNodeType::Multiply => self.cg_mul(r1, r2),
                        ASTNodeType::Divide => self.cg_div(r1, r2),
                        ASTNodeType::IntLit(_) => {
                            proof {
                                assert(false);
                            }
                            r1
                        },
                    };
                    proof {
                        let optext = match op {
                            ASTNodeType::Add => add_text(r1 as int, r2 as int),
                            ASTNodeType::Subtract => sub_text(r1 as int, r2 as int),
                            ASTNodeType::Multiply => mul_text(r1 as int, r2 as int),
                            _ => div_text(r1 as int, r2 as int),
                        };
                        assert(self.out@ =~= out0 + (t1 + t2 + optext));
                    }
                    Ok(res)
                },
                _ => {
                    proof {
                        assert(false);
                    }
                    Err(CompileError::OutOfRegisters)
                },
            },
        }
    }
}

/// The whole assembly program for one expression: prologue, the
/// expression's code, a print of its value, epilogue; or register pool
/// exhaustion.
pub open spec fn spec_generate_code(n: ASTNode) -> Result<Seq<char>, CompileError> {
    match spec_gen(n, all_free()) {
        GenStep::Emit { text, reg, bank } => Ok(
            preamble_text() + text + printint_text(reg) + postamble_text(),
        ),
        GenStep::Oor => Err(CompileError::OutOfRegisters),
    }
}

/// Generate the whole assembly program that computes and prints one
/// expression. Succeeds exactly when the expression needs at most the
/// four scratch registers.
pub fn generate_code(node: &ASTNode) -> (r: Result<String, CompileError>)
    requires
        node.wf(),
    ensures
        (match spec_generate_code(*node) {
            Ok(text) => r is Ok && r->Ok_0@ == text,
            Err(e) => r == Err::<String, CompileError>(e),
        }),
        r is Ok <==> spec_need(*node) <= 4,
{
    proof {
        lemma_gen_need(*node, all_free());
    }
    let mut g = AsmGen::new();
    g.cg_preamble();
    proof {
        lemma_gen(*node, g.free_reg@);
    }
    let reg = match g.gen_ast(node) {
        Ok(r) => r,
        Err(e) => {
            return Err(e);
        },
    };
    let ghost t = spec_gen(*node, all_free())->text;
    g.cg_printint(reg);
    g.cg_postamble();
    proof {
        assert(g.out@ =~= preamble_text() + t + printint_text(reg as int) + postamble_text());
    }
    Ok(g.out)
}

/// Resource boundary of the register bank: generation succeeds for every
/// well-formed expression whose register demand is at most four, and
/// fails with pool exhaustion for every one that needs a fifth
/// simultaneously live value.
pub proof fn register_pool_boundary(n: ASTNode)
    requires
        n.wf(),
    ensures
        spec_need(n) <= 4 ==> spec_generate_code(n) is Ok,
        spec_need(n) > 4 ==> spec_generate_code(n) == Err::<Seq<char>, CompileError>(
            CompileError::OutOfRegisters,
        ),
{
    lemma_gen_need(n, all_free());
}

} // verus!
