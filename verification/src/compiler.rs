//! Block flattening and code generation.
//!
//! The nested groups of the transformed program are flattened into a table
//! of named blocks of flat instructions; block names are indices into the
//! table and the entry block is index zero. The table can be interpreted
//! directly (see `runtime`) or compiled to the text of a stand-alone
//! dispatch-loop program.

use vstd::prelude::*;
use crate::runtime::ThunkRef;
use crate::parser::Expr;
use crate::cps::{ExprCPS, ExprCPSG, cps_size, cps_size_seq, cpss_deep_view, no_force, no_force_seq, lemma_no_force_seq, is_control, well_terminated_seq};

verus! {

/// One flat instruction of a block: the transformed expression forms with
/// nested groups replaced by block references.
#[derive(Debug)]
pub enum ExprCPSRef {
    IntegerLiteral(i64),
    AtomLiteral(String),
    ThunkRef(ThunkRef),
    /// Pops the continuation, then the value to force.
    ForceByCC,
    /// Pops the continuation and forces it.
    ForceByCCBare,
    Terminate,
    Push,
    Pop,
}

impl DeepView for ExprCPSRef {
    type V = ExprCPSRef;

    open spec fn deep_view(&self) -> ExprCPSRef {
        *self
    }
}

impl Clone for ExprCPSRef {
    /// The clone is the same instruction.
    fn clone(&self) -> (r: Self)
        ensures
            r == *self,
    {
        match self {
            ExprCPSRef::IntegerLiteral(i) => ExprCPSRef::IntegerLiteral(*i),
            ExprCPSRef::AtomLiteral(a) => ExprCPSRef::AtomLiteral(a.clone()),
            ExprCPSRef::ThunkRef(t) => ExprCPSRef::ThunkRef(*t),
            ExprCPSRef::ForceByCC => ExprCPSRef::ForceByCC,
            ExprCPSRef::ForceByCCBare => ExprCPSRef::ForceByCCBare,
            ExprCPSRef::Terminate => ExprCPSRef::Terminate,
            ExprCPSRef::Push => ExprCPSRef::Push,
            ExprCPSRef::Pop => ExprCPSRef::Pop,
        }
    }
}

/// The flattened program: block bodies indexed by block name, the entry
/// block first.
pub type CPSProgram = Vec<Vec<ExprCPSRef>>;


/// One flat instruction realizes one transformed expression: literals and
/// operators are carried over, a nested group becomes a reference to a
/// block of the table that realizes the group's body. References point
/// past the entry block, which no block references.
pub open spec fn instr_matches(
    prog: Seq<Seq<ExprCPSRef>>,
    ins: ExprCPSRef,
    e: ExprCPSG,
) -> bool
    decreases cps_size(e), 0int,
{
    match e {
        ExprCPSG::IntegerLiteral(i, _) => ins == ExprCPSRef::IntegerLiteral(i),
        ExprCPSG::AtomLiteral(a, _) => ins matches ExprCPSRef::AtomLiteral(s) && s@ == a,
        ExprCPSG::Thunk(body, _) => {
            proof {
                assert(cps_size(e) == 1 + cps_size_seq(body));
            }
            ins matches ExprCPSRef::ThunkRef(t) && 1 <= t.0 < prog.len()
                && seq_matches(prog, prog[t.0 as int], body)
        },
        ExprCPSG::Force(_) => false,
        ExprCPSG::ForceCC(_) => ins == ExprCPSRef::ForceByCC,
        ExprCPSG::ForceCCBare(_) => ins == ExprCPSRef::ForceByCCBare,
        ExprCPSG::Terminate => ins == ExprCPSRef::Terminate,
        ExprCPSG::Pop(_) => ins == ExprCPSRef::Pop,
        ExprCPSG::Push(_) => ins == ExprCPSRef::Push,
    }
}

/// A block realizes a transformed sequence, instruction by instruction.
pub open spec fn seq_matches(
    prog: Seq<Seq<ExprCPSRef>>,
    row: Seq<ExprCPSRef>,
    exprs: Seq<ExprCPSG>,
) -> bool
    decreases cps_size_seq(exprs), 1int,
{
    if exprs.len() == 0 {
        row.len() == 0
    } else {
        proof {
            assert(cps_size_seq(exprs) == cps_size(exprs[0]) + cps_size_seq(exprs.drop_first()));
            assert(cps_size(exprs[0]) >= 1);
        }
        &&& row.len() == exprs.len()
        &&& instr_matches(prog, row[0], exprs[0])
        &&& seq_matches(prog, row.drop_first(), exprs.drop_first())
    }
}

/// Building `seq_matches` pointwise.
pub proof fn lemma_seq_matches_build(
    prog: Seq<Seq<ExprCPSRef>>,
    row: Seq<ExprCPSRef>,
    exprs: Seq<ExprCPSG>,
)
    requires
        row.len() == exprs.len(),
        forall|k: int| 0 <= k < exprs.len() ==> instr_matches(prog, #[trigger] row[k], exprs[k]),
    ensures
        seq_matches(prog, row, exprs),
    decreases exprs.len(),
{
    if exprs.len() > 0 {
        assert forall|k: int| 0 <= k < exprs.drop_first().len() implies instr_matches(
            prog,
            #[trigger] row.drop_first()[k],
            exprs.drop_first()[k],
        ) by {
            assert(row.drop_first()[k] == row[k + 1]);
            assert(exprs.drop_first()[k] == exprs[k + 1]);
        }
        lemma_seq_matches_build(prog, row.drop_first(), exprs.drop_first());
    }
}

/// A realized block stays realized when the table grows; only the entry
/// block, which nothing references, may change.
pub proof fn lemma_seq_matches_extend(
    p1: Seq<Seq<ExprCPSRef>>,
    p2: Seq<Seq<ExprCPSRef>>,
    row: Seq<ExprCPSRef>,
    exprs: Seq<ExprCPSG>,
)
    requires
        p1.len() <= p2.len(),
        forall|b: int| 1 <= b < p1.len() ==> p2[b] == #[trigger] p1[b],
        seq_matches(p1, row, exprs),
    ensures
        seq_matches(p2, row, exprs),
    decreases cps_size_seq(exprs), 1int,
{
    if exprs.len() > 0 {
        assert(cps_size_seq(exprs) == cps_size(exprs[0]) + cps_size_seq(exprs.drop_first()));
        assert(cps_size(exprs[0]) >= 1);
        lemma_instr_matches_extend(p1, p2, row[0], exprs[0]);
        lemma_seq_matches_extend(p1, p2, row.drop_first(), exprs.drop_first());
    }
}

/// A realized instruction stays realized when the table grows.
pub proof fn lemma_instr_matches_extend(
    p1: Seq<Seq<ExprCPSRef>>,
    p2: Seq<Seq<ExprCPSRef>>,
    ins: ExprCPSRef,
    e: ExprCPSG,
)
    requires
        p1.len() <= p2.len(),
        forall|b: int| 1 <= b < p1.len() ==> p2[b] == #[trigger] p1[b],
        instr_matches(p1, ins, e),
    ensures
        instr_matches(p2, ins, e),
    decreases cps_size(e), 0int,
{
    match e {
        ExprCPSG::Thunk(body, _) => {
            assert(cps_size(e) == 1 + cps_size_seq(body));
            if let ExprCPSRef::ThunkRef(t) = ins {
                assert(p2[t.0 as int] == p1[t.0 as int]);
                lemma_seq_matches_extend(p1, p2, p1[t.0 as int], body);
            }
        },
        _ => {},
    }
}

/// Every block reference in the row resolves in the table, always past the
/// entry block.
pub open spec fn row_closed(prog: Seq<Seq<ExprCPSRef>>, row: Seq<ExprCPSRef>) -> bool {
    forall|k: int| 0 <= k < row.len() ==> ((#[trigger] row[k]) matches ExprCPSRef::ThunkRef(t)
        ==> 1 <= t.0 < prog.len())
}

/// Every block reference anywhere in the table resolves in the table.
pub open spec fn prog_closed(prog: Seq<Seq<ExprCPSRef>>) -> bool {
    forall|b: int| 0 <= b < prog.len() ==> row_closed(prog, #[trigger] prog[b])
}


/// The shape bridge: a row of flat instructions is its own shape.
proof fn lemma_row_deep(v: Vec<ExprCPSRef>)
    ensures
        v.deep_view() == v@,
{
    assert(v.deep_view() =~= v@);
}

/// The shape bridge for the whole table.
pub proof fn lemma_prog_deep(prog: Vec<Vec<ExprCPSRef>>)
    ensures
        prog.deep_view().len() == prog@.len(),
        forall|b: int| 0 <= b < prog@.len() ==> prog.deep_view()[b] == (#[trigger] prog@[b])@,
{
    assert forall|b: int| 0 <= b < prog@.len() implies prog.deep_view()[b] == (#[trigger] prog@[b])@ by {
        assert(prog.deep_view()[b] == prog@[b].deep_view());
        lemma_row_deep(prog@[b]);
    }
}

/// Flatten one transformed sequence: nested groups become fresh table rows
/// appended to `prog`, and the returned row realizes the sequence with
/// references in place of groups. Rows already in the table are untouched.
#[verifier::loop_isolation(false)]
#[verifier::rlimit(60)]
fn flatten_into(prog: &mut CPSProgram, exprs: &[ExprCPS]) -> (row: Vec<ExprCPSRef>)
    requires
        no_force_seq(cpss_deep_view(exprs@)),
        old(prog)@.len() >= 1,
    ensures
        final(prog)@.len() >= old(prog)@.len(),
        forall|b: int| 0 <= b < old(prog)@.len() ==> final(prog)@[b] == #[trigger] old(prog)@[b],
        forall|b: int| old(prog)@.len() <= b < final(prog)@.len() ==> row_closed(
            final(prog).deep_view(),
            #[trigger] final(prog).deep_view()[b],
        ),
        row_closed(final(prog).deep_view(), row@),
        seq_matches(final(prog).deep_view(), row@, cpss_deep_view(exprs@)),
    decreases cps_size_seq(cpss_deep_view(exprs@)),
{
    let ghost dv = cpss_deep_view(exprs@);
    proof {
        crate::cps::lemma_cpss_deep_view(exprs@);
        lemma_no_force_seq(dv);
    }
    let mut row: Vec<ExprCPSRef> = Vec::new();
    let mut k: usize = 0;
    while k < exprs.len()
        invariant
            k <= exprs@.len(),
            row@.len() == k,
            prog@.len() >= old(prog)@.len(),
            forall|b: int| 0 <= b < old(prog)@.len() ==> prog@[b] == #[trigger] old(prog)@[b],
            forall|b: int| old(prog)@.len() <= b < prog@.len() ==> row_closed(
                prog.deep_view(),
                #[trigger] prog.deep_view()[b],
            ),
            row_closed(prog.deep_view(), row@),
            forall|m: int| 0 <= m < k ==> instr_matches(prog.deep_view(), #[trigger] row@[m], dv[m]),
        decreases exprs@.len() - k,
    {
        proof {
            assert(dv[k as int] == crate::cps::cps_deep_view(exprs@[k as int]));
        }
        match &exprs[k] {
            ExprCPS::IntegerLiteral(i, _) => {
                row.push(ExprCPSRef::IntegerLiteral(*i));
            },
            ExprCPS::AtomLiteral(a, _) => {
                row.push(ExprCPSRef::AtomLiteral(a.clone()));
            },
            ExprCPS::Thunk(b, _) => {
                let ghost pre_d = prog.deep_view();
                let ghost pre_p = prog@;
                let ghost bdv = cpss_deep_view(b@);
                proof {
                    assert(crate::cps::cps_size(dv[k as int]) == 1 + cps_size_seq(bdv));
                    crate::cps::lemma_cps_size_elem(dv, k as int);
                    assert(no_force(dv[k as int]));
                    lemma_prog_deep(*prog);
                }
                let child = flatten_into(prog, b.as_slice());
                proof {
                    lemma_prog_deep(*prog);
                }
                let ghost mid_d = prog.deep_view();
                let ghost mid_p = prog@;
                let ghost childv = child@;
                let idx = prog.len();
                prog.push(child);
                let ghost new_d = prog.deep_view();
                proof {
                    lemma_prog_deep(*prog);
                    lemma_row_deep(prog@[idx as int]);
                    assert(new_d.len() == mid_d.len() + 1);
                    assert forall|bb: int| 0 <= bb < mid_d.len() implies #[trigger] new_d[bb]
                        == mid_d[bb] by {
                        assert(new_d[bb] == prog@[bb]@);
                        assert(prog@[bb] == mid_p[bb]);
                    }
                    assert(new_d[idx as int] == childv);
                    lemma_seq_matches_extend(mid_d, new_d, childv, bdv);
                    assert(instr_matches(new_d, ExprCPSRef::ThunkRef(ThunkRef(idx)), dv[k as int]));
                    assert forall|m: int| 0 <= m < k implies instr_matches(
                        new_d,
                        #[trigger] row@[m],
                        dv[m],
                    ) by {
                        lemma_instr_matches_extend(pre_d, new_d, row@[m], dv[m]);
                    }
                    assert forall|bb: int| old(prog)@.len() <= bb < new_d.len() implies row_closed(
                        new_d,
                        #[trigger] new_d[bb],
                    ) by {
                        if bb < pre_d.len() {
                            assert(new_d[bb] == pre_d[bb]);
                            assert(row_closed(pre_d, pre_d[bb]));
                        } else if bb < mid_d.len() {
                            assert(new_d[bb] == mid_d[bb]);
                            assert(row_closed(mid_d, mid_d[bb]));
                        } else {
                            assert(new_d[bb] == childv);
                            assert(row_closed(mid_d, childv));
                        }
                    }
                }
                row.push(ExprCPSRef::ThunkRef(ThunkRef(idx)));
            },
            ExprCPS::ForceCC(_) => {
                row.push(ExprCPSRef::ForceByCC);
            },
            ExprCPS::ForceCCBare(_) => {
                row.push(ExprCPSRef::ForceByCCBare);
            },
            ExprCPS::Terminate => {
                row.push(ExprCPSRef::Terminate);
            },
            ExprCPS::Pop(_) => {
                row.push(ExprCPSRef::Pop);
            },
            ExprCPS::Push(_) => {
                row.push(ExprCPSRef::Push);
            },
            ExprCPS::Force(_) => {
                proof {
                    assert(false);
                }
                row.push(ExprCPSRef::Terminate);
            },
        }
        k = k + 1;
    }
    proof {
        lemma_seq_matches_build(prog.deep_view(), row@, dv);
    }
    row
}


/// Flatten a transformed program into the block table. The entry block is
/// row zero; every nested group becomes its own row; every block reference
/// in the table resolves, and none references the entry row. No row holds
/// a group: the table is flat.
pub fn expr_cps_to_program(exprs: &[ExprCPS]) -> (r: CPSProgram)
    requires
        no_force_seq(cpss_deep_view(exprs@)),
    ensures
        r.deep_view().len() >= 1,
        prog_closed(r.deep_view()),
        seq_matches(r.deep_view(), r.deep_view()[0], cpss_deep_view(exprs@)),
{
    let ghost dv = cpss_deep_view(exprs@);
    let mut prog: CPSProgram = Vec::new();
    prog.push(Vec::new());
    let row = flatten_into(&mut prog, exprs);
    let ghost before_d = prog.deep_view();
    let ghost before_p = prog@;
    let ghost rowv = row@;
    proof {
        lemma_prog_deep(prog);
    }
    prog[0] = row;
    proof {
        lemma_prog_deep(prog);
        lemma_row_deep(prog@[0]);
        let new_d = prog.deep_view();
        assert(new_d.len() == before_d.len());
        assert(new_d[0] == rowv);
        assert forall|bb: int| 1 <= bb < before_d.len() implies #[trigger] new_d[bb]
            == before_d[bb] by {
            assert(new_d[bb] == prog@[bb]@);
            assert(prog@[bb] == before_p[bb]);
        }
        lemma_seq_matches_extend(before_d, new_d, rowv, dv);
        assert forall|bb: int| 0 <= bb < new_d.len() implies row_closed(new_d, #[trigger] new_d[bb]) by {
            if bb == 0 {
                assert(row_closed(before_d, rowv));
            } else {
                assert(new_d[bb] == before_d[bb]);
                assert(row_closed(before_d, before_d[bb]));
            }
        }
    }
    prog
}


/// What the emitted program traces; each switch is independent and none
/// changes program results.
#[derive(Debug, Default)]
pub struct CompilerOptions {
    pub debug: bool,
    pub tracing: bool,
    pub tracing_exec: bool,
    pub tracing_env: bool,
    pub tracing_instructions: bool,
    pub tracing_stack: bool,
}

impl CompilerOptions {
    fn tracing_exec(&self) -> (r: bool)
        ensures
            r == (self.tracing || self.tracing_exec),
    {
        self.tracing || self.tracing_exec
    }

    fn tracing_env(&self) -> (r: bool)
        ensures
            r == (self.tracing || self.tracing_env),
    {
        self.tracing || self.tracing_env
    }

    fn tracing_instructions(&self) -> (r: bool)
        ensures
            r == (self.tracing || self.tracing_instructions),
    {
        self.tracing || self.tracing_instructions
    }

    fn tracing_stack(&self) -> (r: bool)
        ensures
            r == (self.tracing || self.tracing_stack),
    {
        self.tracing || self.tracing_stack
    }
}

/// The digits of an integer literal, with a leading minus for a negative.
pub open spec fn emit_int_g(i: int) -> Seq<char> {
    if i < 0 {
        seq!['-'] + crate::cps::dec_digits((-i) as nat)
    } else {
        crate::cps::dec_digits(i as nat)
    }
}

fn emit_int(i: i64) -> (r: String)
    ensures
        r@ == emit_int_g(i as int),
{
    if i >= 0 {
        let mut s = String::new();
        crate::cps::push_dec(&mut s, i as u64);
        s
    } else {
        let m: u64 = if i == i64::MIN {
            9223372036854775808u64
        } else {
            (-i) as u64
        };
        proof {
            reveal_strlit("-");
            assert("-"@ =~= seq!['-']);
            assert(m as nat == (-(i as int)) as nat);
        }
        let mut s = "-".to_owned();
        crate::cps::push_dec(&mut s, m);
        s
    }
}

/// The generated source name of block `i`.
pub open spec fn block_name_g(i: nat) -> Seq<char> {
    seq!['b'] + crate::cps::dec_digits(i)
}

fn block_name(i: usize) -> (r: String)
    ensures
        r@ == block_name_g(i as nat),
{
    proof {
        reveal_strlit("b");
        assert("b"@ =~= seq!['b']);
    }
    let mut s = "b".to_owned();
    crate::cps::push_dec(&mut s, i as u64);
    s
}

/// The comma-separated block names `b0,…,b(n-1)`.
pub open spec fn names_join_g(n: nat) -> Seq<char>
    decreases n,
{
    if n == 0 {
        Seq::empty()
    } else if n == 1 {
        block_name_g(0)
    } else {
        names_join_g((n - 1) as nat) + seq![','] + block_name_g((n - 1) as nat)
    }
}

/// The text of the block-name enumeration of the emitted program.
pub open spec fn thunk_ref_enum_g(n: nat) -> Seq<char> {
    "#[allow(non_camel_case_types)] #[derive(Clone, Debug, PartialEq)] enum ThunkRef {"@
        + names_join_g(n) + "}"@
}

/// Emit the tagged enumeration of block names for the table's rows.
#[verifier::loop_isolation(false)]
pub fn make_thunk_ref_enum(prog: &CPSProgram) -> (r: String)
    ensures
        r@ == thunk_ref_enum_g(prog@.len() as nat),
{
    let mut code =
        "#[allow(non_camel_case_types)] #[derive(Clone, Debug, PartialEq)] enum ThunkRef {"
        .to_owned();
    let mut k: usize = 0;
    proof {
        reveal_strlit(",");
        assert(","@ =~= seq![',']);
    }
    while k < prog.len()
        invariant
            k <= prog@.len(),
            code@ ==
                "#[allow(non_camel_case_types)] #[derive(Clone, Debug, PartialEq)] enum ThunkRef {"@
                + names_join_g(k as nat),
        decreases prog@.len() - k,
    {
        let ghost pre = code@;
        if k > 0 {
            code.append(",");
        }
        let name = block_name(k);
        code.append(name.as_str());
        proof {
            if k == 0 {
                assert(names_join_g(1) == block_name_g(0));
                assert(code@ =~= pre + names_join_g(1));
            } else {
                assert(names_join_g((k + 1) as nat) == names_join_g(k as nat) + seq![',']
                    + block_name_g(k as nat));
                assert(code@ =~= pre + seq![','] + block_name_g(k as nat));
                assert(code@
                    =~= "#[allow(non_camel_case_types)] #[derive(Clone, Debug, PartialEq)] enum ThunkRef {"@
                    + names_join_g((k + 1) as nat));
            }
        }
        k = k + 1;
    }
    code.append("}");
    code
}

/// How the emitted program performs one flat instruction.
pub open spec fn emit_instr_g(ins: ExprCPSRef) -> Seq<char> {
    match ins {
        ExprCPSRef::IntegerLiteral(i) => "stack.push(Value::Integer("@ + emit_int_g(i as int)
            + "));"@,
        ExprCPSRef::AtomLiteral(a) => "stack.push(Value::Atom(\""@ + a@ + "\".to_string()));"@,
        ExprCPSRef::ThunkRef(t) =>
            "stack.push(Value::Thunk { env: cur_frame.env.clone(), fp: ThunkRef::"@
            + block_name_g(t.0 as nat) + " });"@,
        ExprCPSRef::Terminate => "break;"@,
        ExprCPSRef::Push => "builtin_push(&mut cur_frame.env, stack);"@,
        ExprCPSRef::Pop => "builtin_pop(&mut cur_frame.env, stack);"@,
        ExprCPSRef::ForceByCC => "{ cur_frame = builtin_force_cc(stack, &mut cur_frame); }"@,
        ExprCPSRef::ForceByCCBare => "{ cur_frame = builtin_force_cc_bare(stack); }"@,
    }
}

/// The tracing line emitted before an instruction when instruction tracing
/// is on.
pub open spec fn instr_trace_g(ins: ExprCPSRef) -> Seq<char> {
    match ins {
        ExprCPSRef::IntegerLiteral(i) => "eprintln!(\"INST int "@ + emit_int_g(i as int)
            + "\");"@,
        ExprCPSRef::AtomLiteral(a) => "eprintln!(\"INST atom "@ + a@ + "\");"@,
        ExprCPSRef::ThunkRef(t) => "eprintln!(\"INST tr "@ + block_name_g(t.0 as nat) + "\");"@,
        ExprCPSRef::Terminate => "eprintln!(\"INST terminate\");"@,
        ExprCPSRef::Push => "eprintln!(\"INST push\");"@,
        ExprCPSRef::Pop => "eprintln!(\"INST pop\");"@,
        ExprCPSRef::ForceByCC => "eprintln!(\"INST force-cc\");"@,
        ExprCPSRef::ForceByCCBare => "eprintln!(\"INST force-cc-bare\");"@,
    }
}

/// Append the tracing line for one instruction.
pub fn compile_instruction_tracing(code: &mut String, ee: &ExprCPSRef)
    ensures
        final(code)@ == old(code)@ + instr_trace_g(*ee),
{
    proof {
        reveal_strlit("eprintln!(\"INST int ");
        reveal_strlit("eprintln!(\"INST atom ");
        reveal_strlit("eprintln!(\"INST tr ");
        reveal_strlit("\");");
    }
    match ee {
        ExprCPSRef::IntegerLiteral(i) => {
            code.append("eprintln!(\"INST int ");
            let n = emit_int(*i);
            code.append(n.as_str());
            code.append("\");");
        },
        ExprCPSRef::AtomLiteral(a) => {
            code.append("eprintln!(\"INST atom ");
            code.append(a.as_str());
            code.append("\");");
        },
        ExprCPSRef::ThunkRef(t) => {
            code.append("eprintln!(\"INST tr ");
            let n = block_name(t.0);
            code.append(n.as_str());
            code.append("\");");
        },
        ExprCPSRef::Terminate => {
            code.append("eprintln!(\"INST terminate\");");
        },
        ExprCPSRef::Push => {
            code.append("eprintln!(\"INST push\");");
        },
        ExprCPSRef::Pop => {
            code.append("eprintln!(\"INST pop\");");
        },
        ExprCPSRef::ForceByCC => {
            code.append("eprintln!(\"INST force-cc\");");
        },
        ExprCPSRef::ForceByCCBare => {
            code.append("eprintln!(\"INST force-cc-bare\");");
        },
    }
}

/// The emitted body of one block: each instruction in order, each preceded
/// by its tracing line when instruction tracing is on.
pub open spec fn emit_seq_g(s: Seq<ExprCPSRef>, tracing: bool) -> Seq<char>
    decreases s.len(),
{
    if s.len() == 0 {
        Seq::empty()
    } else {
        (if tracing {
            instr_trace_g(s[0])
        } else {
            Seq::empty()
        }) + emit_instr_g(s[0]) + emit_seq_g(s.drop_first(), tracing)
    }
}

/// Emit the body of one block.
#[verifier::loop_isolation(false)]
pub fn compile_expr_cps_ref(eexprs: &[ExprCPSRef], opts: &CompilerOptions) -> (r: String)
    ensures
        r@ == emit_seq_g(eexprs@, opts.tracing || opts.tracing_instructions),
{
    let tracing = opts.tracing_instructions();
    let mut code = String::new();
    let mut k: usize = 0;
    proof {
        reveal_strlit("stack.push(Value::Integer(");
        reveal_strlit("));");
        reveal_strlit("stack.push(Value::Atom(\"");
        reveal_strlit("\".to_string()));");
        reveal_strlit("stack.push(Value::Thunk { env: cur_frame.env.clone(), fp: ThunkRef::");
        reveal_strlit(" });");
        reveal_strlit("break;");
        reveal_strlit("builtin_push(&mut cur_frame.env, stack);");
        reveal_strlit("builtin_pop(&mut cur_frame.env, stack);");
        reveal_strlit("{ cur_frame = builtin_force_cc(stack, &mut cur_frame); }");
        reveal_strlit("{ cur_frame = builtin_force_cc_bare(stack); }");
    }
    proof {
        assert(eexprs@.skip(0) =~= eexprs@);
        assert(code@ + emit_seq_g(eexprs@, tracing) =~= emit_seq_g(eexprs@, tracing));
    }
    while k < eexprs.len()
        invariant
            k <= eexprs@.len(),
            code@ + emit_seq_g(eexprs@.skip(k as int), tracing) == emit_seq_g(
                eexprs@,
                tracing,
            ),
            tracing == (opts.tracing || opts.tracing_instructions),
        decreases eexprs@.len() - k,
    {
        let ghost pre = code@;
        proof {
            assert(eexprs@.skip(k as int)[0] == eexprs@[k as int]);
            assert(eexprs@.skip(k as int).drop_first() =~= eexprs@.skip(k as int + 1));
        }
        if tracing {
            compile_instruction_tracing(&mut code, &eexprs[k]);
        }
        match &eexprs[k] {
            ExprCPSRef::IntegerLiteral(i) => {
                code.append("stack.push(Value::Integer(");
                let n = emit_int(*i);
                code.append(n.as_str());
                code.append("));");
            },
            ExprCPSRef::AtomLiteral(a) => {
                code.append("stack.push(Value::Atom(\"");
                code.append(a.as_str());
                code.append("\".to_string()));");
            },
            ExprCPSRef::ThunkRef(t) => {
                code.append(
                    "stack.push(Value::Thunk { env: cur_frame.env.clone(), fp: ThunkRef::",
                );
                let n = block_name(t.0);
                code.append(n.as_str());
                code.append(" });");
            },
            ExprCPSRef::Terminate => {
                code.append("break;");
            },
            ExprCPSRef::Push => {
                code.append("builtin_push(&mut cur_frame.env, stack);");
            },
            ExprCPSRef::Pop => {
                code.append("builtin_pop(&mut cur_frame.env, stack);");
            },
            ExprCPSRef::ForceByCC => {
                code.append("{ cur_frame = builtin_force_cc(stack, &mut cur_frame); }");
            },
            ExprCPSRef::ForceByCCBare => {
                code.append("{ cur_frame = builtin_force_cc_bare(stack); }");
            },
        }
        proof {
            assert(code@ =~= pre + (if tracing {
                instr_trace_g(eexprs@[k as int])
            } else {
                Seq::<char>::empty()
            }) + emit_instr_g(eexprs@[k as int]));
            assert(code@ + emit_seq_g(eexprs@.skip(k as int + 1), tracing) =~= emit_seq_g(
                eexprs@,
                tracing,
            ));
        }
        k = k + 1;
    }
    proof {
        assert(eexprs@.skip(eexprs@.len() as int) =~= Seq::<ExprCPSRef>::empty());
        assert(code@ =~= code@ + emit_seq_g(eexprs@.skip(eexprs@.len() as int), tracing));
    }
    code
}


/// The dispatch arms of the emitted program, one per block, in table order.
pub open spec fn arms_g(pd: Seq<Seq<ExprCPSRef>>, b: int, tracing_ins: bool) -> Seq<char>
    decreases pd.len() - b,
{
    if b < 0 || b >= pd.len() {
        Seq::empty()
    } else {
        "ThunkRef::"@ + block_name_g(b as nat) + " => {"@ + emit_seq_g(pd[b], tracing_ins) + "},"@
            + arms_g(pd, b + 1, tracing_ins)
    }
}

/// The emitted dispatch loop: one frame, replaced on every transfer, one
/// match arm per block, and optional tracing of the block about to run,
/// the environment, each instruction, and the stack after each block.
pub open spec fn toplevel_g(
    pd: Seq<Seq<ExprCPSRef>>,
    t_exec: bool,
    t_env: bool,
    t_ins: bool,
    t_stack: bool,
) -> Seq<char> {
    "fn top_level(env: &mut Env, stack: &mut Stack) {"@
        + "let mut cur_frame =  Frame{tr: ThunkRef::b0, env: env.clone()};"@ + "loop {"@ + (if t_exec {
        "eprintln!(\"EXEC {:?}\", cur_frame.tr);"@
    } else {
        Seq::empty()
    }) + (if t_env {
        "eprintln!(\"ENV {:?}\", cur_frame.env);"@
    } else {
        Seq::empty()
    }) + "match cur_frame.tr {"@ + arms_g(pd, 0, t_ins) + "}"@ + (if t_stack {
        "eprint!(\"STACK\");"@ + "for v in stack.iter() {eprint!(\" {v}\")} eprintln!(\"\");"@
    } else {
        Seq::empty()
    }) + "}"@ + "}"@
}

/// Emit the dispatch loop over the block table.
#[verifier::loop_isolation(false)]
#[verifier::rlimit(80)]
pub fn compile_toplevel(prog: &CPSProgram, opts: &CompilerOptions) -> (r: String)
    ensures
        r@ == toplevel_g(
            prog.deep_view(),
            opts.tracing || opts.tracing_exec,
            opts.tracing || opts.tracing_env,
            opts.tracing || opts.tracing_instructions,
            opts.tracing || opts.tracing_stack,
        ),
{
    let ghost pd = prog.deep_view();
    proof {
        lemma_prog_deep(*prog);
    }
    let mut code = "fn top_level(env: &mut Env, stack: &mut Stack) {".to_owned();
    code.append("let mut cur_frame =  Frame{tr: ThunkRef::b0, env: env.clone()};");
    code.append("loop {");
    if opts.tracing_exec() {
        code.append("eprintln!(\"EXEC {:?}\", cur_frame.tr);");
    }
    if opts.tracing_env() {
        code.append("eprintln!(\"ENV {:?}\", cur_frame.env);");
    }
    code.append("match cur_frame.tr {");
    let ghost head = code@;
    let tins = opts.tracing_instructions();
    let mut b: usize = 0;
    proof {
        assert(code@ =~= head + arms_g(pd, pd.len() as int, tins) + Seq::<char>::empty());
    }
    while b < prog.len()
        invariant
            b <= prog@.len(),
            code@ + arms_g(pd, b as int, tins) == head + arms_g(pd, 0, tins),
        decreases prog@.len() - b,
    {
        let ghost pre = code@;
        code.append("ThunkRef::");
        let name = block_name(b);
        code.append(name.as_str());
        code.append(" => {");
        let body = compile_expr_cps_ref(prog[b].as_slice(), opts);
        code.append(body.as_str());
        code.append("},");
        proof {
            assert(pd[b as int] == prog@[b as int]@);
            assert(code@ =~= pre + ("ThunkRef::"@ + block_name_g(b as nat) + " => {"@ + emit_seq_g(
                pd[b as int],
                tins,
            ) + "},"@));
            assert(code@ + arms_g(pd, b as int + 1, tins) =~= pre + arms_g(pd, b as int, tins));
        }
        b = b + 1;
    }
    proof {
        assert(arms_g(pd, pd.len() as int, tins) =~= Seq::<char>::empty());
        assert(code@ =~= head + arms_g(pd, 0, tins));
    }
    code.append("}");
    if opts.tracing_stack() {
        code.append("eprint!(\"STACK\");");
        code.append("for v in stack.iter() {eprint!(\" {v}\")} eprintln!(\"\");");
    }
    code.append("}");
    code.append("}");
    proof {
        assert(code@ =~= toplevel_g(
            pd,
            opts.tracing || opts.tracing_exec,
            opts.tracing || opts.tracing_env,
            opts.tracing || opts.tracing_instructions,
            opts.tracing || opts.tracing_stack,
        ));
    }
    code
}

/// The entry point of the emitted program.
pub open spec fn main_text_g() -> Seq<char> {
    "\nfn main() {\n    println!(\"Hello, world!\");\n    let mut stack = Vec::new();\n    let mut env = make_env();\n    top_level(&mut env, &mut stack);\n}"@
}

/// Emit the entry point of the program.
pub fn main_function() -> (r: String)
    ensures
        r@ == main_text_g(),
{
    "\nfn main() {\n    println!(\"Hello, world!\");\n    let mut stack = Vec::new();\n    let mut env = make_env();\n    top_level(&mut env, &mut stack);\n}"
        .to_owned()
}

/// Compile a source program to the text of a stand-alone trampoline
/// program: the given runtime text, the block-name enumeration, the
/// dispatch loop and an entry point. The only faults are the transform's.
pub fn compile(exprs: &[Expr], opts: &CompilerOptions, header: &str) -> (r: Result<
    String,
    crate::cps::CpsError,
>)
    requires
        (crate::cps::desugar_g(crate::parser::exprs_deep_view(exprs@)) matches Ok(d)
            ==> crate::cps::cps_size_seq(d) <= u64::MAX),
    ensures
        match crate::cps::expr_cps_g(crate::parser::exprs_deep_view(exprs@)) {
            Ok(c) => r matches Ok(code) && exists|pd: Seq<Seq<ExprCPSRef>>|
                {
                    &&& pd.len() >= 1
                    &&& #[trigger] prog_closed(pd)
                    &&& seq_matches(pd, pd[0], c)
                    &&& code@ == header@ + thunk_ref_enum_g(pd.len() as nat) + toplevel_g(
                        pd,
                        opts.tracing || opts.tracing_exec,
                        opts.tracing || opts.tracing_env,
                        opts.tracing || opts.tracing_instructions,
                        opts.tracing || opts.tracing_stack,
                    ) + main_text_g()
                },
            Err(e) => r matches Err(e2) && e2 == e,
        },
{
    let expr_cps = match crate::cps::expr_cps(exprs) {
        Ok(v) => v,
        Err(e) => {
            return Err(e);
        },
    };
    proof {
        crate::cps::lemma_expr_cps_no_force(crate::parser::exprs_deep_view(exprs@));
    }
    let prog3 = expr_cps_to_program(expr_cps.as_slice());
    let mut code = header.to_owned();
    let enum_text = make_thunk_ref_enum(&prog3);
    code.append(enum_text.as_str());
    let top = compile_toplevel(&prog3, opts);
    code.append(top.as_str());
    let mainf = main_function();
    code.append(mainf.as_str());
    proof {
        let pd = prog3.deep_view();
        assert(pd.len() == prog3@.len());
        assert(code@ =~= header@ + thunk_ref_enum_g(pd.len() as nat) + toplevel_g(
            pd,
            opts.tracing || opts.tracing_exec,
            opts.tracing || opts.tracing_env,
            opts.tracing || opts.tracing_instructions,
            opts.tracing || opts.tracing_stack,
        ) + main_text_g());
    }
    Ok(code)
}


/// Transform and flatten in one step: the block table ready for the
/// trampoline, or the transform's fault. The table realizes the
/// transformed program and every reference in it resolves.
pub fn compile_to_table(exprs: &[Expr]) -> (r: Result<CPSProgram, crate::cps::CpsError>)
    requires
        (crate::cps::desugar_g(crate::parser::exprs_deep_view(exprs@)) matches Ok(d)
            ==> crate::cps::cps_size_seq(d) <= u64::MAX),
    ensures
        match crate::cps::expr_cps_g(crate::parser::exprs_deep_view(exprs@)) {
            Ok(c) => r matches Ok(prog) && prog.deep_view().len() >= 1 && prog_closed(
                prog.deep_view(),
            ) && seq_matches(prog.deep_view(), prog.deep_view()[0], c),
            Err(e) => r matches Err(e2) && e2 == e,
        },
{
    let cps = match crate::cps::expr_cps(exprs) {
        Ok(v) => v,
        Err(e) => {
            return Err(e);
        },
    };
    proof {
        crate::cps::lemma_expr_cps_no_force(crate::parser::exprs_deep_view(exprs@));
    }
    Ok(expr_cps_to_program(cps.as_slice()))
}


/// A block realizing a well-terminated group body ends in exactly one
/// explicit control transfer: flattened tables have no implicit
/// fall-off-the-end.
pub proof fn lemma_block_ends_in_control(
    prog: Seq<Seq<ExprCPSRef>>,
    row: Seq<ExprCPSRef>,
    exprs: Seq<ExprCPSG>,
)
    requires
        seq_matches(prog, row, exprs),
        well_terminated_seq(exprs),
    ensures
        row.len() > 0,
        row.last() == ExprCPSRef::ForceByCC || row.last() == ExprCPSRef::ForceByCCBare
            || row.last() == ExprCPSRef::Terminate,
    decreases exprs.len(),
{
    if exprs.len() == 1 {
        assert(exprs.last() == exprs[0]);
        assert(is_control(exprs[0]));
        assert(instr_matches(prog, row[0], exprs[0]));
        assert(row.last() == row[0]);
    } else {
        assert(exprs.drop_first().last() == exprs.last());
        assert(well_terminated_seq(exprs.drop_first()));
        lemma_block_ends_in_control(prog, row.drop_first(), exprs.drop_first());
        assert(row.last() == row.drop_first().last());
    }
}

} // verus!
