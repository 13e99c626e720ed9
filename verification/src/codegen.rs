//! The LLVM IR generator: textual IR from the MIR sequence and the
//! dependency list.
//!
//! The output is a fixed target header, one declaration or constant line
//! per dependency in list order, and a single entry function whose body
//! comes from a depth-first post-order walk of the MIR.  Every binary
//! arithmetic result gets a fresh virtual register `%varN`, numbered
//! from 1 upward for the whole program, never reused; `print` emits a
//! call and no register.  The whole output is a mathematical function of
//! the MIR and the dependency list, so regenerating is byte-identical.

use vstd::prelude::*;
use crate::mir::{lemma_mir_op_count_prefix, lemma_mir_views, mir_op_count, mir_op_count_list,
    mir_views, Dependency, MirNode, MirView};
use crate::numtext::{i32_to_string, int_text, nat_text, u64_to_string};

verus! {

/// The name of virtual register `k`.
pub open spec fn temp_name(k: int) -> Seq<char> {
    "%var"@ + nat_text(k)
}

/// One arithmetic instruction line: register `k` defined by the
/// instruction text `middle` over the two operand texts.
pub open spec fn instr_line(middle: Seq<char>, k: int, vl: Seq<char>, vr: Seq<char>) -> Seq<
    char,
> {
    "  "@ + temp_name(k) + middle + vl + ", "@ + vr + "\n"@
}

/// The call line printing the operand text `v`.
pub open spec fn print_call_line(v: Seq<char>) -> Seq<char> {
    "  call i32 (i8*, ...) @printf(i8* getelementptr inbounds ([4 x i8], [4 x i8]* @int_fmt, i32 0, i32 0), i32 "@
        + v + ")\n"@
}

/// The code of one MIR node, starting from register counter `counter`:
/// the emitted instruction text, the text naming the node's value, and
/// the counter after the node.
pub open spec fn spec_gen_node(n: MirView, counter: int) -> (Seq<char>, Seq<char>, int)
    decreases n,
{
    match n {
        MirView::I32 { val } => (Seq::empty(), int_text(val as int), counter),
        MirView::Add { left, right } => {
            let l = spec_gen_node(*left, counter);
            let r = spec_gen_node(*right, l.2);
            let k = r.2 + 1;
            (l.0 + r.0 + instr_line(" = add i32 "@, k, l.1, r.1), temp_name(k), k)
        },
        MirView::Sub { left, right } => {
            let l = spec_gen_node(*left, counter);
            let r = spec_gen_node(*right, l.2);
            let k = r.2 + 1;
            (l.0 + r.0 + instr_line(" = sub i32 "@, k, l.1, r.1), temp_name(k), k)
        },
        MirView::Mul { left, right } => {
            let l = spec_gen_node(*left, counter);
            let r = spec_gen_node(*right, l.2);
            let k = r.2 + 1;
            (l.0 + r.0 + instr_line(" = mul i32 "@, k, l.1, r.1), temp_name(k), k)
        },
        MirView::Div { left, right } => {
            let l = spec_gen_node(*left, counter);
            let r = spec_gen_node(*right, l.2);
            let k = r.2 + 1;
            (l.0 + r.0 + instr_line(" = sdiv i32 "@, k, l.1, r.1), temp_name(k), k)
        },
        MirView::Print { left } => {
            let l = spec_gen_node(*left, counter);
            let txt = if *left is I32 {
                l.0 + print_call_line(l.1)
            } else {
                l.0
            };
            (txt, Seq::empty(), l.2)
        },
    }
}

/// The code of a MIR sequence in order: the emitted text and the counter
/// after the last node.
pub open spec fn spec_gen_nodes(ms: Seq<MirView>, counter: int) -> (Seq<char>, int)
    decreases ms,
{
    if ms.len() == 0 {
        (Seq::empty(), counter)
    } else {
        let pre = spec_gen_nodes(ms.drop_last(), counter);
        let last = spec_gen_node(ms.last(), pre.1);
        (pre.0 + last.0, last.2)
    }
}

/// Registers are allocated in strict post-order with no gaps and no
/// reuse: the counter after a node is the counter before it plus the
/// node's binary-arithmetic count, so a node entered at counter `c`
/// uses exactly the registers `c+1 ..= c + mir_op_count(n)`.
pub proof fn lemma_register_counter(n: MirView, counter: int)
    ensures
        spec_gen_node(n, counter).2 == counter + mir_op_count(n),
    decreases n,
{
    match n {
        MirView::I32 { .. } => {},
        MirView::Add { left, right } => {
            lemma_register_counter(*left, counter);
            lemma_register_counter(*right, counter + mir_op_count(*left));
        },
        MirView::Sub { left, right } => {
            lemma_register_counter(*left, counter);
            lemma_register_counter(*right, counter + mir_op_count(*left));
        },
        MirView::Mul { left, right } => {
            lemma_register_counter(*left, counter);
            lemma_register_counter(*right, counter + mir_op_count(*left));
        },
        MirView::Div { left, right } => {
            lemma_register_counter(*left, counter);
            lemma_register_counter(*right, counter + mir_op_count(*left));
        },
        MirView::Print { left } => {
            lemma_register_counter(*left, counter);
        },
    }
}

/// [`lemma_register_counter`] over a whole MIR sequence: generating N
/// binary arithmetic operations from a fresh generator allocates
/// registers 1 through N.
pub proof fn lemma_register_counter_list(ms: Seq<MirView>, counter: int)
    ensures
        spec_gen_nodes(ms, counter).1 == counter + mir_op_count_list(ms),
    decreases ms,
{
    if ms.len() > 0 {
        lemma_register_counter_list(ms.drop_last(), counter);
        lemma_register_counter(ms.last(), counter + mir_op_count_list(ms.drop_last()));
    }
}

/// One declaration or constant line per dependency.
pub open spec fn dep_line(d: Dependency) -> Seq<char> {
    match d {
        Dependency::Printf => "declare i32 @printf(i8*, ...)\n"@,
        Dependency::IntFmt => "@int_fmt = private unnamed_addr constant [4 x i8] c\"%d\\0A\\00\"\n"@,
    }
}

/// The dependency lines in list order, duplicates kept.
pub open spec fn dep_lines(deps: Seq<Dependency>) -> Seq<char>
    decreases deps,
{
    if deps.len() == 0 {
        Seq::empty()
    } else {
        dep_lines(deps.drop_last()) + dep_line(deps.last())
    }
}

/// The whole output for a MIR sequence and dependency list, starting
/// from register counter `counter`.
pub open spec fn spec_generate_from(ms: Seq<MirView>, deps: Seq<Dependency>, counter: int) -> Seq<
    char,
> {
    "target datalayout = \"e-m:e-i64:64-f80:128-n8:16:32:64-S128\"\n"@
        + "target triple = \"x86_64-pc-windows-msvc19.44.35221\"\n"@ + dep_lines(deps)
        + "define i32 @main() {\n"@ + "entry:\n"@ + spec_gen_nodes(ms, counter).0
        + "  ret i32 0\n"@ + "}\n"@
}

/// The whole output of a fresh generator.
pub open spec fn spec_generate(ms: Seq<MirView>, deps: Seq<Dependency>) -> Seq<char> {
    spec_generate_from(ms, deps, 0)
}

/// The textual IR generator: a monotonically increasing virtual
/// register counter.
pub struct LlvmIrGenerator {
    stack: u32,
}

impl View for LlvmIrGenerator {
    type V = int;

    closed spec fn view(&self) -> int {
        self.stack as int
    }
}

impl LlvmIrGenerator {
    /// A fresh generator, with no registers allocated yet.
    pub fn new() -> (g: LlvmIrGenerator)
        ensures
            g@ == 0,
    {
        LlvmIrGenerator { stack: 0 }
    }

    /// Allocates the next virtual register name.
    fn get_temp_name(&mut self) -> (r: String)
        requires
            old(self)@ < u32::MAX as int,
        ensures
            final(self)@ == old(self)@ + 1,
            r@ == temp_name(final(self)@),
    {
        self.stack = self.stack + 1;
        let digits = u64_to_string(self.stack as u64);
        let mut s = String::from_str("%var");
        s.append(digits.as_str());
        proof {
            assert(s@ =~= temp_name(final(self)@));
        }
        s
    }

    /// Emits the code of one MIR node into `ir` and returns the text
    /// naming the node's value.
    #[verifier::rlimit(60)]
    #[verifier::spinoff_prover]
    fn gen_node(&mut self, node: &MirNode, ir: &mut String) -> (val: String)
        requires
            old(self)@ + mir_op_count(node@) <= u32::MAX as int,
        ensures
            final(ir)@ == old(ir)@ + spec_gen_node(node@, old(self)@).0,
            val@ == spec_gen_node(node@, old(self)@).1,
            final(self)@ == spec_gen_node(node@, old(self)@).2,
        decreases node,
    {
        match node {
            MirNode::I32(n) => {
                proof {
                    assert(ir@ + Seq::<char>::empty() =~= ir@);
                }
                i32_to_string(*n)
            },
            MirNode::Add { left, right } => {
                proof {
                    assert(node@ == MirView::Add {
                        left: Box::new((**left)@),
                        right: Box::new((**right)@),
                    });
                    lemma_register_counter((**left)@, old(self)@);
                }
                let lv = self.gen_node(&**left, ir);
                proof {
                    lemma_register_counter((**right)@, self@);
                }
                let rv = self.gen_node(&**right, ir);
                let tn = self.get_temp_name();
                ir.append("  ");
                ir.append(tn.as_str());
                ir.append(" = add i32 ");
                ir.append(lv.as_str());
                ir.append(", ");
                ir.append(rv.as_str());
                ir.append("\n");
                proof {
                    assert(ir@ =~= old(ir)@ + spec_gen_node(node@, old(self)@).0);
                }
                tn
            },
            MirNode::Sub { left, right } => {
                proof {
                    assert(node@ == MirView::Sub {
                        left: Box::new((**left)@),
                        right: Box::new((**right)@),
                    });
                    lemma_register_counter((**left)@, old(self)@);
                }
                let lv = self.gen_node(&**left, ir);
                proof {
                    lemma_register_counter((**right)@, self@);
                }
                let rv = self.gen_node(&**right, ir);
                let tn = self.get_temp_name();
                ir.append("  ");
                ir.append(tn.as_str());
                ir.append(" = sub i32 ");
                ir.append(lv.as_str());
                ir.append(", ");
                ir.append(rv.as_str());
                ir.append("\n");
                proof {
                    assert(ir@ =~= old(ir)@ + spec_gen_node(node@, old(self)@).0);
                }
                tn
            },
            MirNode::Mul { left, right } => {
                proof {
                    assert(node@ == MirView::Mul {
                        left: Box::new((**left)@),
                        right: Box::new((**right)@),
                    });
                    lemma_register_counter((**left)@, old(self)@);
                }
                let lv = self.gen_node(&**left, ir);
                proof {
                    lemma_register_counter((**right)@, self@);
                }
                let rv = self.gen_node(&**right, ir);
                let tn = self.get_temp_name();
                ir.append("  ");
                ir.append(tn.as_str());
                ir.append(" = mul i32 ");
                ir.append(lv.as_str());
                ir.append(", ");
                ir.append(rv.as_str());
                ir.append("\n");
                proof {
                    assert(ir@ =~= old(ir)@ + spec_gen_node(node@, old(self)@).0);
                }
                tn
            },
            MirNode::Div { left, right } => {
                proof {
                    assert(node@ == MirView::Div {
                        left: Box::new((**left)@),
                        right: Box::new((**right)@),
                    });
                    lemma_register_counter((**left)@, old(self)@);
                }
                let lv = self.gen_node(&**left, ir);
                proof {
                    lemma_register_counter((**right)@, self@);
                }
                let rv = self.gen_node(&**right, ir);
                let tn = self.get_temp_name();
                ir.append("  ");
                ir.append(tn.as_str());
                ir.append(" = sdiv i32 ");
                ir.append(lv.as_str());
                ir.append(", ");
                ir.append(rv.as_str());
                ir.append("\n");
                proof {
                    assert(ir@ =~= old(ir)@ + spec_gen_node(node@, old(self)@).0);
                }
                tn
            },
            MirNode::Print { left } => {
                proof {
                    assert(node@ == MirView::Print { left: Box::new((**left)@) });
                }
                let lv = self.gen_node(&**left, ir);
                if matches!(&**left, MirNode::I32(_)) {
                    ir.append(
                        "  call i32 (i8*, ...) @printf(i8* getelementptr inbounds ([4 x i8], [4 x i8]* @int_fmt, i32 0, i32 0), i32 ",
                    );
                    ir.append(lv.as_str());
                    ir.append(")\n");
                }
                proof {
                    assert(ir@ =~= old(ir)@ + spec_gen_node(node@, old(self)@).0);
                }
                String::new()
            },
        }
    }

    /// Emits the whole textual module: the target header, the dependency
    /// lines in order, and the entry function around the MIR's code.
    #[verifier::loop_isolation(false)]
    pub fn generate_llvm_intermediate_representation(
        &mut self,
        ast: Vec<MirNode>,
        dependencies: Vec<Dependency>,
    ) -> (r: String)
        requires
            old(self)@ + mir_op_count_list(mir_views(ast@)) <= u32::MAX as int,
        ensures
            r@ == spec_generate_from(mir_views(ast@), dependencies@, old(self)@),
    {
        let ghost ms = mir_views(ast@);
        let ghost start: int = old(self)@;
        proof {
            lemma_mir_views(ast@);
        }
        let mut output = String::from_str(
            "target datalayout = \"e-m:e-i64:64-f80:128-n8:16:32:64-S128\"\n",
        );
        output.append("target triple = \"x86_64-pc-windows-msvc19.44.35221\"\n");
        let ghost header = output@;
        let mut i: usize = 0;
        proof {
            assert(dependencies@.take(0) =~= Seq::<Dependency>::empty());
            assert(output@ =~= header + dep_lines(dependencies@.take(0)));
        }
        while i < dependencies.len()
            invariant
                i <= dependencies@.len(),
                output@ == header + dep_lines(dependencies@.take(i as int)),
            decreases dependencies@.len() - i,
        {
            proof {
                assert(dependencies@.take(i + 1).drop_last() =~= dependencies@.take(i as int));
                assert(dependencies@.take(i + 1).last() == dependencies@[i as int]);
            }
            match dependencies[i] {
                Dependency::Printf => {
                    output.append("declare i32 @printf(i8*, ...)\n");
                },
                Dependency::IntFmt => {
                    output.append(
                        "@int_fmt = private unnamed_addr constant [4 x i8] c\"%d\\0A\\00\"\n",
                    );
                },
            }
            proof {
                assert(output@ =~= header + dep_lines(dependencies@.take(i + 1)));
            }
            i = i + 1;
        }
        proof {
            assert(dependencies@.take(dependencies@.len() as int) =~= dependencies@);
        }
        output.append("define i32 @main() {\n");
        output.append("entry:\n");
        let ghost pre = output@;
        let mut j: usize = 0;
        proof {
            assert(ms.take(0) =~= Seq::<MirView>::empty());
            assert(output@ =~= pre + spec_gen_nodes(ms.take(0), start).0);
        }
        while j < ast.len()
            invariant
                j <= ast@.len(),
                self@ == spec_gen_nodes(ms.take(j as int), start).1,
                output@ == pre + spec_gen_nodes(ms.take(j as int), start).0,
            decreases ast@.len() - j,
        {
            proof {
                assert(ms.take(j + 1).drop_last() =~= ms.take(j as int));
                assert(ms.take(j + 1).last() == ms[j as int]);
                lemma_register_counter_list(ms.take(j as int), start);
                lemma_mir_op_count_prefix(ms, j + 1);
                assert(mir_op_count_list(ms.take(j + 1)) == mir_op_count_list(ms.take(j as int))
                    + mir_op_count(ms[j as int]));
            }
            let _val = self.gen_node(&ast[j], &mut output);
            proof {
                assert(output@ =~= pre + spec_gen_nodes(ms.take(j + 1), start).0);
            }
            j = j + 1;
        }
        proof {
            assert(ms.take(ast@.len() as int) =~= ms);
        }
        output.append("  ret i32 0\n");
        output.append("}\n");
        proof {
            assert(output@ =~= spec_generate_from(ms, dependencies@, start));
        }
        output
    }
}

} // verus!
