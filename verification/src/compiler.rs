//! Tree-walking compiler: lowers the syntax tree to stack-machine opcodes and
//! serializes them to a byte stream.
//!
//! Name resolution uses two flat, per-compilation symbol tables: variable
//! names map to slot indices (assigned as "current table size" at declaration
//! time), function names map to the instruction index of the compiled body's
//! first instruction. The exact behaviour of every executable routine is
//! pinned by a specification-level compiler (`sp_compile_program` and its
//! helpers) and serializer (`sp_serialize`).

use vstd::prelude::*;
use vstd::string::StringExecFns;
use vstd::utf8::encode_utf8;
use crate::parser::{AST, Expression, Statement, SpExpr, SpStmt, expr_view, exprs_view, stmt_view,
    stmts_view};

verus! {

broadcast use vstd::std_specs::vec::group_vec_axioms, vstd::seq::group_seq_axioms;

// ---------------------------------------------------------------------------
// Opcodes and compile errors
// ---------------------------------------------------------------------------

/// One stack-machine instruction. `LoadConst` holds the IEEE-754 bit pattern
/// of the 64-bit floating-point constant; variable and function references
/// are already resolved to slot indices and entry offsets.
#[derive(Debug, PartialEq)]
pub enum Opcode {
    LoadConst(u64),
    LoadString(String),
    LoadVar(usize),
    StoreVar(usize),
    Call(usize, usize),
    MakeArray(usize),
    Return,
    Output,
}

/// The mathematical form of an instruction.
pub enum SpOpcode {
    LoadConst(u64),
    LoadString(Seq<char>),
    LoadVar(int),
    StoreVar(int),
    Call(int, int),
    MakeArray(int),
    Return,
    Output,
}

/// The mathematical view of an instruction.
pub open spec fn op_view(o: Opcode) -> SpOpcode {
    match o {
        Opcode::LoadConst(bits) => SpOpcode::LoadConst(bits),
        Opcode::LoadString(s) => SpOpcode::LoadString(s@),
        Opcode::LoadVar(slot) => SpOpcode::LoadVar(slot as int),
        Opcode::StoreVar(slot) => SpOpcode::StoreVar(slot as int),
        Opcode::Call(entry, argc) => SpOpcode::Call(entry as int, argc as int),
        Opcode::MakeArray(n) => SpOpcode::MakeArray(n as int),
        Opcode::Return => SpOpcode::Return,
        Opcode::Output => SpOpcode::Output,
    }
}

/// The mathematical view of an instruction sequence.
pub open spec fn ops_view(s: Seq<Opcode>) -> Seq<SpOpcode> {
    s.map_values(|o: Opcode| op_view(o))
}

/// A compile failure: a name referenced before any binding of it exists.
#[derive(Debug, PartialEq)]
pub enum CompileError {
    UndefinedVariable { name: String },
    UndefinedFunction { name: String },
}

/// The mathematical form of a compile failure.
pub enum SpCompileError {
    UndefinedVariable { name: Seq<char> },
    UndefinedFunction { name: Seq<char> },
}

/// The mathematical view of a compile failure.
pub open spec fn cerr_view(e: CompileError) -> SpCompileError {
    match e {
        CompileError::UndefinedVariable { name } => SpCompileError::UndefinedVariable {
            name: name@,
        },
        CompileError::UndefinedFunction { name } => SpCompileError::UndefinedFunction {
            name: name@,
        },
    }
}

impl CompileError {
    /// A readable description of the failure.
    pub fn message(&self) -> (r: String)
        ensures
            (match self {
                CompileError::UndefinedVariable { name } => r@ == "Undefined variable: "@ + name@,
                CompileError::UndefinedFunction { name } => r@ == "Undefined function: "@ + name@,
            }),
    {
        match self {
            CompileError::UndefinedVariable { name } => {
                let mut m = String::from_str("Undefined variable: ");
                m.append(name.as_str());
                m
            },
            CompileError::UndefinedFunction { name } => {
                let mut m = String::from_str("Undefined function: ");
                m.append(name.as_str());
                m
            },
        }
    }
}

// ---------------------------------------------------------------------------
// Symbol tables
// ---------------------------------------------------------------------------

/// A flat symbol table in the mathematical view: name/value pairs in
/// insertion order, each name at most once.
pub type SpEnv = Seq<(Seq<char>, int)>;

/// The mathematical view of a symbol table.
pub open spec fn env_view(t: Seq<(String, usize)>) -> SpEnv {
    t.map_values(|p: (String, usize)| (p.0@, p.1 as int))
}

/// The value bound to `name`, searching from entry `i` on.
pub open spec fn sp_lookup_at(env: SpEnv, name: Seq<char>, i: int) -> Option<int>
    decreases env.len() - i,
{
    if i < 0 || i >= env.len() {
        None
    } else if env[i].0 == name {
        Some(env[i].1)
    } else {
        sp_lookup_at(env, name, i + 1)
    }
}

/// The value bound to `name`, or `None` where the table has no entry for it.
pub open spec fn sp_lookup(env: SpEnv, name: Seq<char>) -> Option<int> {
    sp_lookup_at(env, name, 0)
}

/// Rebinds or appends `name`, searching from entry `i` on.
pub open spec fn sp_set_at(env: SpEnv, name: Seq<char>, val: int, i: int) -> SpEnv
    decreases env.len() - i,
{
    if i < 0 || i >= env.len() {
        env.push((name, val))
    } else if env[i].0 == name {
        env.update(i, (name, val))
    } else {
        sp_set_at(env, name, val, i + 1)
    }
}

/// The table with `name` bound to `val`: an existing entry is overwritten in
/// place, a new name is appended.
pub open spec fn sp_set(env: SpEnv, name: Seq<char>, val: int) -> SpEnv {
    sp_set_at(env, name, val, 0)
}

/// Declares `name` in a variable table: its slot is the current table size.
pub open spec fn sp_bind(env: SpEnv, name: Seq<char>) -> SpEnv {
    sp_set(env, name, env.len() as int)
}

/// Declares each parameter name in order.
pub open spec fn sp_bind_params(env: SpEnv, params: Seq<Seq<char>>) -> SpEnv
    decreases params.len(),
{
    if params.len() == 0 {
        env
    } else {
        sp_bind_params(sp_bind(env, params[0]), params.drop_first())
    }
}

/// The node count of an expression tree, the measure that lowering recurses
/// on.
pub open spec fn expr_size(e: Expression) -> nat
    decreases e,
{
    match e {
        Expression::Number(_) => 1,
        Expression::String(_) => 1,
        Expression::Identifier(_) => 1,
        Expression::Call { function: _, arguments } => 1 + exprs_size(arguments@),
        Expression::Array { elements } => 1 + exprs_size(elements@),
    }
}

/// The total node count of a list of expressions.
pub open spec fn exprs_size(es: Seq<Expression>) -> nat
    decreases es,
{
    if es.len() == 0 {
        0
    } else {
        expr_size(es[0]) + exprs_size(es.drop_first())
    }
}

/// The node count of a statement.
pub open spec fn stmt_size(s: Statement) -> nat
    decreases s,
{
    match s {
        Statement::Let { name: _, value } => 1 + expr_size(value),
        Statement::Output(e) => 1 + expr_size(e),
        Statement::Function { name: _, params: _, body } => 1 + stmts_size(body@),
    }
}

/// The total node count of a list of statements.
pub open spec fn stmts_size(ss: Seq<Statement>) -> nat
    decreases ss,
{
    if ss.len() == 0 {
        0
    } else {
        stmt_size(ss[0]) + stmts_size(ss.drop_first())
    }
}

proof fn lemma_exprs_size_index(es: Seq<Expression>, k: int)
    requires
        0 <= k < es.len(),
    ensures
        expr_size(es[k]) <= exprs_size(es),
    decreases k,
{
    if k == 0 {
    } else {
        lemma_exprs_size_index(es.drop_first(), k - 1);
    }
}

proof fn lemma_stmts_size_index(ss: Seq<Statement>, k: int)
    requires
        0 <= k < ss.len(),
    ensures
        stmt_size(ss[k]) <= stmts_size(ss),
    decreases k,
{
    if k == 0 {
    } else {
        lemma_stmts_size_index(ss.drop_first(), k - 1);
    }
}

/// Looks a name up in a table.
fn table_lookup(table: &Vec<(String, usize)>, name: &String) -> (r: Option<usize>)
    ensures
        (match r {
            Some(v) => sp_lookup(env_view(table@), name@) == Some(v as int),
            None => sp_lookup(env_view(table@), name@) == None::<int>,
        }),
{
    let mut i: usize = 0;
    while i < table.len()
        invariant
            i <= table@.len(),
            sp_lookup(env_view(table@), name@) == sp_lookup_at(env_view(table@), name@, i as int),
        decreases table@.len() - i,
    {
        if table[i].0 == *name {
            return Some(table[i].1);
        }
        i += 1;
    }
    None
}

/// Binds a name in a table: overwrites the entry in place, or appends.
#[verifier::loop_isolation(false)]
fn table_set(table: &mut Vec<(String, usize)>, name: String, val: usize)
    ensures
        env_view(final(table)@) == sp_set(env_view(old(table)@), name@, val as int),
{
    let ghost env = env_view(old(table)@);
    let mut i: usize = 0;
    while i < table.len()
        invariant
            i <= table@.len(),
            table@ == old(table)@,
            sp_set(env, name@, val as int) == sp_set_at(env_view(table@), name@, val as int,
                i as int),
        decreases table@.len() - i,
    {
        if table[i].0 == name {
            let ghost before = table@;
            let _ = table.remove(i);
            table.insert(i, (name, val));
            proof {
                assert(before == old(table)@);
                assert(env =~= env_view(before));
                assert(table@ =~= before.update(i as int, (name, val)));
                assert forall|x: int| 0 <= x < table@.len() implies env_view(table@)[x]
                    == env.update(i as int, (name@, val as int))[x] by {
                    assert(env_view(table@)[x] == (table@[x].0@, table@[x].1 as int));
                    assert(env[x] == (before[x].0@, before[x].1 as int));
                }
                assert(env_view(table@) =~= env.update(i as int, (name@, val as int)));
            }
            return;
        }
        i += 1;
    }
    table.push((name, val));
    proof {
        assert(env_view(table@) =~= env.push((name@, val as int)));
    }
}

// ---------------------------------------------------------------------------
// The specification-level compiler
// ---------------------------------------------------------------------------

/// What lowering a statement sequence produces: the emitted instructions and
/// the symbol tables after it.
pub struct CompOut {
    pub code: Seq<SpOpcode>,
    pub vars: SpEnv,
    pub funcs: SpEnv,
}

/// Lowers one expression under the given tables. Arguments and elements are
/// lowered left to right; an identifier or callee without a table entry is
/// the compile error, arguments first.
pub open spec fn sp_compile_expr(e: SpExpr, vars: SpEnv, funcs: SpEnv) -> Result<
    Seq<SpOpcode>,
    SpCompileError,
>
    decreases e,
{
    match e {
        SpExpr::Number(bits) => Ok(seq![SpOpcode::LoadConst(bits)]),
        SpExpr::Strng(s) => Ok(seq![SpOpcode::LoadString(s)]),
        SpExpr::Identifier(name) => match sp_lookup(vars, name) {
            Some(slot) => Ok(seq![SpOpcode::LoadVar(slot)]),
            None => Err(SpCompileError::UndefinedVariable { name }),
        },
        SpExpr::Call { function, arguments } => match sp_compile_exprs(arguments, vars, funcs) {
            Ok(code) => match sp_lookup(funcs, function) {
                Some(entry) => Ok(
                    code + seq![SpOpcode::Call(entry, arguments.len() as int)],
                ),
                None => Err(SpCompileError::UndefinedFunction { name: function }),
            },
            Err(err) => Err(err),
        },
        SpExpr::Array { elements } => match sp_compile_exprs(elements, vars, funcs) {
            Ok(code) => Ok(code + seq![SpOpcode::MakeArray(elements.len() as int)]),
            Err(err) => Err(err),
        },
    }
}

/// Lowers a sequence of expressions left to right under fixed tables.
pub open spec fn sp_compile_exprs(es: Seq<SpExpr>, vars: SpEnv, funcs: SpEnv) -> Result<
    Seq<SpOpcode>,
    SpCompileError,
>
    decreases es,
{
    if es.len() == 0 {
        Ok(seq![])
    } else {
        match sp_compile_expr(es[0], vars, funcs) {
            Ok(c0) => match sp_compile_exprs(es.drop_first(), vars, funcs) {
                Ok(rest) => Ok(c0 + rest),
                Err(err) => Err(err),
            },
            Err(err) => Err(err),
        }
    }
}

/// Lowers one statement. `pc` is the index of the next instruction of the
/// single global instruction stream; a function declaration records it as the
/// entry offset, before any of its body is lowered.
pub open spec fn sp_compile_stmt(s: SpStmt, vars: SpEnv, funcs: SpEnv, pc: int) -> Result<
    CompOut,
    SpCompileError,
>
    decreases s,
{
    match s {
        SpStmt::Let { name, value } => match sp_compile_expr(value, vars, funcs) {
            Ok(c) => Ok(
                CompOut {
                    code: c + seq![SpOpcode::StoreVar(vars.len() as int)],
                    vars: sp_bind(vars, name),
                    funcs,
                },
            ),
            Err(err) => Err(err),
        },
        SpStmt::Output(e) => match sp_compile_expr(e, vars, funcs) {
            Ok(c) => Ok(CompOut { code: c + seq![SpOpcode::Output], vars, funcs }),
            Err(err) => Err(err),
        },
        SpStmt::Function { name, params, body } => {
            let funcs2 = sp_set(funcs, name, pc);
            let vars2 = sp_bind_params(vars, params);
            match sp_compile_stmts(body, vars2, funcs2, pc) {
                Ok(o) => Ok(
                    CompOut { code: o.code + seq![SpOpcode::Return], vars: o.vars, funcs: o.funcs },
                ),
                Err(err) => Err(err),
            }
        },
    }
}

/// Lowers a statement sequence in order, threading the tables and the
/// instruction index.
pub open spec fn sp_compile_stmts(ss: Seq<SpStmt>, vars: SpEnv, funcs: SpEnv, pc: int) -> Result<
    CompOut,
    SpCompileError,
>
    decreases ss,
{
    if ss.len() == 0 {
        Ok(CompOut { code: seq![], vars, funcs })
    } else {
        match sp_compile_stmt(ss[0], vars, funcs, pc) {
            Ok(o1) => match sp_compile_stmts(ss.drop_first(), o1.vars, o1.funcs,
                pc + o1.code.len()) {
                Ok(o2) => Ok(
                    CompOut { code: o1.code + o2.code, vars: o2.vars, funcs: o2.funcs },
                ),
                Err(err) => Err(err),
            },
            Err(err) => Err(err),
        }
    }
}

/// Lowers a whole program, starting from empty tables and instruction index
/// zero: the emitted instruction sequence, or the first compile error.
pub open spec fn sp_compile_program(prog: Seq<SpStmt>) -> Result<Seq<SpOpcode>, SpCompileError> {
    match sp_compile_stmts(prog, Seq::empty(), Seq::empty(), 0) {
        Ok(o) => Ok(o.code),
        Err(err) => Err(err),
    }
}

/// Prepends already-emitted code to the result of lowering what follows.
pub open spec fn code_prepend(pre: Seq<SpOpcode>, r: Result<Seq<SpOpcode>, SpCompileError>) -> Result<
    Seq<SpOpcode>,
    SpCompileError,
> {
    match r {
        Ok(c) => Ok(pre + c),
        Err(err) => Err(err),
    }
}

/// Prepends already-emitted code to the outcome of lowering what follows.
pub open spec fn out_prepend(pre: Seq<SpOpcode>, r: Result<CompOut, SpCompileError>) -> Result<
    CompOut,
    SpCompileError,
> {
    match r {
        Ok(o) => Ok(CompOut { code: pre + o.code, vars: o.vars, funcs: o.funcs }),
        Err(err) => Err(err),
    }
}

// ---------------------------------------------------------------------------
// Serialization
// ---------------------------------------------------------------------------

/// The `k` little-endian bytes of a non-negative value: byte `j` is
/// `v / 256^j % 256`.
pub open spec fn le_bytes(v: int, k: nat) -> Seq<u8>
    decreases k,
{
    if k == 0 {
        seq![]
    } else {
        seq![(v % 256) as u8] + le_bytes(v / 256, (k - 1) as nat)
    }
}

/// The wire form of one instruction: a one-byte tag, then a fixed-layout
/// little-endian payload. A string payload is its length as four bytes (taken
/// modulo 2^32, as the four-byte field forces), then its raw UTF-8 bytes.
pub open spec fn sp_serialize_op(op: SpOpcode) -> Seq<u8> {
    match op {
        SpOpcode::LoadConst(bits) => seq![1u8] + le_bytes(bits as int, 8),
        SpOpcode::LoadString(s) => seq![2u8] + le_bytes(
            (encode_utf8(s).len() as usize) as int % 0x1_0000_0000,
            4,
        ) + encode_utf8(s),
        SpOpcode::LoadVar(slot) => seq![3u8] + le_bytes(slot % 0x1_0000_0000, 4),
        SpOpcode::StoreVar(slot) => seq![4u8] + le_bytes(slot % 0x1_0000_0000, 4),
        SpOpcode::Call(entry, argc) => seq![5u8] + le_bytes(entry % 0x1_0000_0000, 4) + le_bytes(
            argc % 0x1_0000_0000,
            4,
        ),
        SpOpcode::MakeArray(n) => seq![6u8] + le_bytes(n % 0x1_0000_0000, 4),
        SpOpcode::Return => seq![7u8],
        SpOpcode::Output => seq![8u8],
    }
}

/// The wire form of an instruction sequence: each instruction's bytes in
/// order.
pub open spec fn sp_serialize(code: Seq<SpOpcode>) -> Seq<u8>
    decreases code.len(),
{
    if code.len() == 0 {
        seq![]
    } else {
        sp_serialize_op(code[0]) + sp_serialize(code.drop_first())
    }
}

/// Appends the `k` little-endian low bytes of `v`.
fn push_le_bytes(bytes: &mut Vec<u8>, v: u64, k: usize)
    ensures
        final(bytes)@ == old(bytes)@ + le_bytes(v as int, k as nat),
    decreases k,
{
    if k == 0 {
        proof {
            assert(bytes@ + le_bytes(v as int, 0nat) =~= bytes@);
        }
        return ;
    }
    let b: u8 = (v % 256) as u8;
    let ghost mid = bytes@;
    bytes.push(b);
    push_le_bytes(bytes, v / 256, k - 1);
    proof {
        assert((v % 256) as u8 as int == v as int % 256);
        assert((v / 256) as int == v as int / 256);
        assert(bytes@ =~= mid + le_bytes(v as int, k as nat));
    }
}

// ---------------------------------------------------------------------------
// The compiler
// ---------------------------------------------------------------------------

/// A tree-walking compiler: the instruction stream being built and the two
/// per-compilation symbol tables. A fresh instance (or a fresh `compile`
/// call, which resets all three) is one compilation unit.
pub struct Compiler {
    pub bytecode: Vec<Opcode>,
    pub variables: Vec<(String, usize)>,
    pub functions: Vec<(String, usize)>,
}

impl Compiler {
    /// The instruction stream in the mathematical view.
    pub open spec fn code(&self) -> Seq<SpOpcode> {
        ops_view(self.bytecode@)
    }

    /// The variable table in the mathematical view.
    pub open spec fn vars(&self) -> SpEnv {
        env_view(self.variables@)
    }

    /// The function table in the mathematical view.
    pub open spec fn funcs(&self) -> SpEnv {
        env_view(self.functions@)
    }

    /// A fresh compiler with an empty stream and empty tables.
    pub fn new() -> (c: Compiler)
        ensures
            c.code() == Seq::<SpOpcode>::empty(),
            c.vars() == Seq::<(Seq<char>, int)>::empty(),
            c.funcs() == Seq::<(Seq<char>, int)>::empty(),
    {
        let c = Compiler { bytecode: Vec::new(), variables: Vec::new(), functions: Vec::new() };
        proof {
            assert(c.code() =~= Seq::<SpOpcode>::empty());
            assert(c.vars() =~= Seq::<(Seq<char>, int)>::empty());
            assert(c.funcs() =~= Seq::<(Seq<char>, int)>::empty());
        }
        c
    }

    /// Compiles a whole program to its serialized byte stream: the statements
    /// are lowered in order from fresh tables, then the instruction stream is
    /// serialized. Returns the bytes, or the first compile error (discarding
    /// any partially built stream). Never panics: every failure is the typed
    /// error that `sp_compile_program` gives.
    #[verifier::loop_isolation(false)]
    pub fn compile(&mut self, ast: &AST) -> (r: Result<Vec<u8>, CompileError>)
        ensures
            (match r {
                Ok(bytes) => sp_compile_program(stmts_view(ast.statements@)) matches Ok(code)
                    && bytes@ == sp_serialize(code),
                Err(e) => sp_compile_program(stmts_view(ast.statements@)) == Err::<
                    Seq<SpOpcode>,
                    SpCompileError,
                >(cerr_view(e)),
            }),
    {
        self.bytecode = Vec::new();
        self.variables = Vec::new();
        self.functions = Vec::new();
        proof {
            assert(self.code() =~= Seq::<SpOpcode>::empty());
            assert(self.vars() =~= Seq::<(Seq<char>, int)>::empty());
            assert(self.funcs() =~= Seq::<(Seq<char>, int)>::empty());
            assert(stmts_view(ast.statements@.skip(0)) == stmts_view(ast.statements@)) by {
                assert(ast.statements@.skip(0) =~= ast.statements@);
            }
        }
        let mut k: usize = 0;
        while k < ast.statements.len()
            invariant
                k <= ast.statements@.len(),
                sp_compile_stmts(
                    stmts_view(ast.statements@),
                    Seq::empty(),
                    Seq::empty(),
                    0,
                ) == out_prepend(
                    self.code(),
                    sp_compile_stmts(
                        stmts_view(ast.statements@.skip(k as int)),
                        self.vars(),
                        self.funcs(),
                        self.code().len() as int,
                    ),
                ),
            decreases ast.statements@.len() - k,
        {
            let ghost pre = self.code();
            let ghost suffix = ast.statements@.skip(k as int);
            let ghost vars_c = self.vars();
            let ghost funcs_c = self.funcs();
            proof {
                assert(suffix.len() > 0);
                assert(suffix[0] == ast.statements@[k as int]);
                assert(suffix.drop_first() =~= ast.statements@.skip(k as int + 1));
                assert(stmts_view(suffix) == seq![stmt_view(suffix[0])] + stmts_view(
                    suffix.drop_first(),
                ));
                assert(stmts_view(suffix)[0] == stmt_view(suffix[0]));
                assert(stmts_view(suffix).drop_first() =~= stmts_view(suffix.drop_first()));
            }
            self.compile_statement(&ast.statements[k])?;
            proof {
                let o1 = sp_compile_stmt(stmt_view(suffix[0]), vars_c, funcs_c,
                    pre.len() as int)->Ok_0;
                let r2 = sp_compile_stmts(stmts_view(suffix.drop_first()), o1.vars, o1.funcs,
                    pre.len() as int + o1.code.len() as int);
                lemma_out_prepend_step(pre, o1.code, r2);
                assert(pre + o1.code == self.code());
            }
            k += 1;
        }
        proof {
            assert(ast.statements@.skip(k as int) =~= Seq::<Statement>::empty());
            assert(stmts_view(Seq::<Statement>::empty()) =~= Seq::<SpStmt>::empty());
            assert(self.code() + Seq::<SpOpcode>::empty() =~= self.code());
        }
        let mut bytes: Vec<u8> = Vec::new();
        let ghost total = self.code();
        proof {
            assert(total.skip(0) =~= total);
            assert(bytes@ =~= Seq::<u8>::empty());
        }
        let n = self.bytecode.len();
        let mut i: usize = 0;
        while i < n
            invariant
                i <= n,
                n == self.bytecode@.len(),
                total == self.code(),
                bytes@ + sp_serialize(total.skip(i as int)) == sp_serialize(total),
            decreases n - i,
        {
            let ghost rest = total.skip(i as int);
            proof {
                assert(rest[0] == op_view(self.bytecode@[i as int]));
                assert(rest.drop_first() =~= total.skip(i as int + 1));
            }
            let ghost before = bytes@;
            serialize_opcode(&self.bytecode[i], &mut bytes);
            proof {
                assert(before + (sp_serialize_op(rest[0]) + sp_serialize(rest.drop_first())) =~= (
                before + sp_serialize_op(rest[0])) + sp_serialize(rest.drop_first()));
            }
            i += 1;
        }
        proof {
            assert(total.skip(n as int) =~= Seq::<SpOpcode>::empty());
            assert(bytes@ + Seq::<u8>::empty() =~= bytes@);
        }
        Ok(bytes)
    }

    /// Lowers one statement into the instruction stream, updating the symbol
    /// tables as the statement requires.
    #[verifier::loop_isolation(false)]
    pub fn compile_statement(&mut self, statement: &Statement) -> (r: Result<(), CompileError>)
        ensures
            (match r {
                Ok(()) => sp_compile_stmt(
                    stmt_view(*statement),
                    old(self).vars(),
                    old(self).funcs(),
                    old(self).code().len() as int,
                ) matches Ok(out) && final(self).code() == old(self).code() + out.code
                    && final(self).vars() == out.vars && final(self).funcs() == out.funcs,
                Err(e) => sp_compile_stmt(
                    stmt_view(*statement),
                    old(self).vars(),
                    old(self).funcs(),
                    old(self).code().len() as int,
                ) == Err::<CompOut, SpCompileError>(cerr_view(e)),
            }),
        decreases stmt_size(*statement), 2int,
    {
        match statement {
            Statement::Let { name, value } => {
                self.compile_expression(value)?;
                let slot = self.variables.len();
                let ghost mid = self.code();
                self.bytecode.push(Opcode::StoreVar(slot));
                proof {
                    assert(self.code() =~= mid + seq![SpOpcode::StoreVar(slot as int)]);
                    lemma_prepend_assoc(old(self).code(), self.code().skip(
                        old(self).code().len() as int,
                    ));
                }
                table_set(&mut self.variables, name.clone(), slot);
                Ok(())
            },
            Statement::Output(e) => {
                self.compile_expression(e)?;
                let ghost mid = self.code();
                self.bytecode.push(Opcode::Output);
                proof {
                    assert(self.code() =~= mid + seq![SpOpcode::Output]);
                    lemma_prepend_assoc(old(self).code(), self.code().skip(
                        old(self).code().len() as int,
                    ));
                }
                Ok(())
            },
            Statement::Function { name, params, body } => {
                let entry = self.bytecode.len();
                table_set(&mut self.functions, name.clone(), entry);
                let ghost vars0 = old(self).vars();
                let ghost funcs_set = self.functions@;
                let ghost dv = params.deep_view();
                proof {
                    assert(dv.skip(0) =~= dv);
                }
                let mut k: usize = 0;
                while k < params.len()
                    invariant
                        k <= params@.len(),
                        dv == params.deep_view(),
                        self.bytecode == old(self).bytecode,
                        self.functions@ == funcs_set,
                        sp_bind_params(vars0, dv) == sp_bind_params(self.vars(), dv.skip(k as int)),
                    decreases params@.len() - k,
                {
                    proof {
                        assert(dv.skip(k as int)[0] == dv[k as int]);
                        assert(dv.skip(k as int).drop_first() =~= dv.skip(k as int + 1));
                    }
                    let slot = self.variables.len();
                    table_set(&mut self.variables, params[k].clone(), slot);
                    k += 1;
                }
                proof {
                    assert(dv.skip(params@.len() as int) =~= Seq::<Seq<char>>::empty());
                }
                let ghost vars1 = self.vars();
                let ghost funcs1 = self.funcs();
                let ghost pc0 = self.code().len() as int;
                let ghost bodyv = stmts_view(body@);
                proof {
                    assert(body@.skip(0) =~= body@);
                    assert(self.code() + Seq::<SpOpcode>::empty() =~= self.code());
                    assert(dv.skip(params@.len() as int) =~= Seq::<Seq<char>>::empty());
                    assert(vars1 == sp_bind_params(vars0, dv));
                    assert(self.bytecode@ == old(self).bytecode@);
                    assert(pc0 == old(self).code().len() as int);
                    assert(entry as int == old(self).code().len() as int);
                    assert(funcs1 == sp_set(old(self).funcs(), name@, entry as int));
                    assert(self.code().skip(pc0) =~= Seq::<SpOpcode>::empty());
                    assert(stmt_view(*statement) == (SpStmt::Function {
                        name: name@,
                        params: dv,
                        body: bodyv,
                    }));
                }
                let mut j: usize = 0;
                while j < body.len()
                    invariant
                        j <= body@.len(),
                        pc0 == old(self).code().len() as int,
                        self.code().len() >= pc0,
                        self.code().subrange(0, pc0) == old(self).code(),
                        sp_compile_stmts(bodyv, vars1, funcs1, pc0) == out_prepend(
                            self.code().skip(pc0),
                            sp_compile_stmts(
                                stmts_view(body@.skip(j as int)),
                                self.vars(),
                                self.funcs(),
                                self.code().len() as int,
                            ),
                        ),
                        bodyv == stmts_view(body@),
                    decreases body@.len() - j,
                {
                    let ghost pre = self.code();
                    let ghost suffix = body@.skip(j as int);
                    let ghost vars_c = self.vars();
                    let ghost funcs_c = self.funcs();
                    proof {
                        assert(suffix.len() > 0);
                        assert(suffix[0] == body@[j as int]);
                        assert(suffix.drop_first() =~= body@.skip(j as int + 1));
                        assert(stmts_view(suffix) == seq![stmt_view(suffix[0])] + stmts_view(
                            suffix.drop_first(),
                        ));
                        assert(stmts_view(suffix)[0] == stmt_view(suffix[0]));
                        assert(stmts_view(suffix).drop_first() =~= stmts_view(suffix.drop_first()));
                        lemma_stmts_size_index(body@, j as int);
                    }
                    self.compile_statement(&body[j])?;
                    proof {
                        let o1 = sp_compile_stmt(stmt_view(suffix[0]), vars_c, funcs_c,
                            pre.len() as int)->Ok_0;
                        let r2 = sp_compile_stmts(stmts_view(suffix.drop_first()), o1.vars,
                            o1.funcs, pre.len() as int + o1.code.len() as int);
                        assert(pre + o1.code == self.code());
                        assert(pre.skip(pc0) + o1.code =~= self.code().skip(pc0));
                        lemma_out_prepend_step(pre.skip(pc0), o1.code, r2);
                        assert(self.code().subrange(0, pc0) =~= old(self).code());
                    }
                    j += 1;
                }
                proof {
                    assert(body@.skip(body@.len() as int) =~= Seq::<Statement>::empty());
                    assert(stmts_view(Seq::<Statement>::empty()) =~= Seq::<SpStmt>::empty());
                    assert(self.code().skip(pc0) + Seq::<SpOpcode>::empty() =~= self.code().skip(
                        pc0,
                    ));
                }
                let ghost mid = self.code();
                self.bytecode.push(Opcode::Return);
                proof {
                    assert(self.code() =~= mid + seq![SpOpcode::Return]);
                    assert(self.code().skip(pc0) =~= mid.skip(pc0) + seq![SpOpcode::Return]);
                    assert(self.code() =~= old(self).code() + self.code().skip(pc0));
                }
                Ok(())
            },
        }
    }

    /// Lowers one expression into the instruction stream; the symbol tables
    /// are read but never changed.
    pub fn compile_expression(&mut self, expr: &Expression) -> (r: Result<(), CompileError>)
        ensures
            final(self).variables == old(self).variables,
            final(self).functions == old(self).functions,
            (match r {
                Ok(()) => sp_compile_expr(
                    expr_view(*expr),
                    old(self).vars(),
                    old(self).funcs(),
                ) matches Ok(c) && final(self).code() == old(self).code() + c,
                Err(e) => sp_compile_expr(expr_view(*expr), old(self).vars(), old(self).funcs())
                    == Err::<Seq<SpOpcode>, SpCompileError>(cerr_view(e)),
            }),
        decreases expr_size(*expr), 0int,
    {
        match expr {
            Expression::Number(bits) => {
                let ghost pre = self.code();
                self.bytecode.push(Opcode::LoadConst(*bits));
                proof {
                    assert(self.code() =~= pre + seq![SpOpcode::LoadConst(*bits)]);
                }
                Ok(())
            },
            Expression::String(s) => {
                let ghost pre = self.code();
                self.bytecode.push(Opcode::LoadString(s.clone()));
                proof {
                    assert(self.code() =~= pre + seq![SpOpcode::LoadString(s@)]);
                }
                Ok(())
            },
            Expression::Identifier(name) => {
                match table_lookup(&self.variables, name) {
                    Some(slot) => {
                        let ghost pre = self.code();
                        self.bytecode.push(Opcode::LoadVar(slot));
                        proof {
                            assert(self.code() =~= pre + seq![SpOpcode::LoadVar(slot as int)]);
                        }
                        Ok(())
                    },
                    None => Err(CompileError::UndefinedVariable { name: name.clone() }),
                }
            },
            Expression::Call { function, arguments } => {
                self.compile_exprs(arguments)?;
                match table_lookup(&self.functions, function) {
                    Some(entry) => {
                        let ghost pre = self.code();
                        self.bytecode.push(Opcode::Call(entry, arguments.len()));
                        proof {
                            lemma_exprs_view_len(arguments@);
                            assert(self.code() =~= pre + seq![SpOpcode::Call(
                                entry as int,
                                arguments@.len() as int,
                            )]);
                            lemma_prepend_assoc(old(self).code(), pre.skip(
                                old(self).code().len() as int,
                            ));
                        }
                        Ok(())
                    },
                    None => Err(CompileError::UndefinedFunction { name: function.clone() }),
                }
            },
            Expression::Array { elements } => {
                self.compile_exprs(elements)?;
                let ghost pre = self.code();
                self.bytecode.push(Opcode::MakeArray(elements.len()));
                proof {
                    lemma_exprs_view_len(elements@);
                    assert(self.code() =~= pre + seq![SpOpcode::MakeArray(elements@.len() as int)]);
                    lemma_prepend_assoc(old(self).code(), pre.skip(old(self).code().len() as int));
                }
                Ok(())
            },
        }
    }

    /// Lowers a list of expressions left to right.
    #[verifier::loop_isolation(false)]
    fn compile_exprs(&mut self, es: &Vec<Expression>) -> (r: Result<(), CompileError>)
        ensures
            final(self).variables == old(self).variables,
            final(self).functions == old(self).functions,
            (match r {
                Ok(()) => sp_compile_exprs(
                    exprs_view(es@),
                    old(self).vars(),
                    old(self).funcs(),
                ) matches Ok(c) && final(self).code() == old(self).code() + c,
                Err(e) => sp_compile_exprs(exprs_view(es@), old(self).vars(), old(self).funcs())
                    == Err::<Seq<SpOpcode>, SpCompileError>(cerr_view(e)),
            }),
        decreases exprs_size(es@), 1int,
    {
        proof {
            assert(es@.skip(0) =~= es@);
            assert(self.code() + Seq::<SpOpcode>::empty() =~= self.code());
        }
        let mut k: usize = 0;
        while k < es.len()
            invariant
                k <= es@.len(),
                self.variables == old(self).variables,
                self.functions == old(self).functions,
                self.code().len() >= old(self).code().len(),
                self.code().subrange(0, old(self).code().len() as int) == old(self).code(),
                sp_compile_exprs(exprs_view(es@), old(self).vars(), old(self).funcs())
                    == code_prepend(
                    self.code().skip(old(self).code().len() as int),
                    sp_compile_exprs(
                        exprs_view(es@.skip(k as int)),
                        old(self).vars(),
                        old(self).funcs(),
                    ),
                ),
            decreases es@.len() - k,
        {
            let ghost pre = self.code();
            let ghost suffix = es@.skip(k as int);
            proof {
                assert(suffix.len() > 0);
                assert(suffix[0] == es@[k as int]);
                assert(suffix.drop_first() =~= es@.skip(k as int + 1));
                assert(exprs_view(suffix) == seq![expr_view(suffix[0])] + exprs_view(
                    suffix.drop_first(),
                ));
                assert(exprs_view(suffix)[0] == expr_view(suffix[0]));
                assert(exprs_view(suffix).drop_first() =~= exprs_view(suffix.drop_first()));
                lemma_exprs_size_index(es@, k as int);
            }
            self.compile_expression(&es[k])?;
            proof {
                let cut = old(self).code().len() as int;
                let c = sp_compile_expr(expr_view(suffix[0]), old(self).vars(),
                    old(self).funcs())->Ok_0;
                let r2 = sp_compile_exprs(exprs_view(suffix.drop_first()), old(self).vars(),
                    old(self).funcs());
                assert(pre + c == self.code());
                assert(pre.skip(cut) + c =~= self.code().skip(cut));
                lemma_code_prepend_step(pre.skip(cut), c, r2);
                assert(self.code().subrange(0, cut) =~= old(self).code());
            }
            k += 1;
        }
        proof {
            assert(es@.skip(es@.len() as int) =~= Seq::<Expression>::empty());
            assert(exprs_view(Seq::<Expression>::empty()) =~= Seq::<SpExpr>::empty());
            assert(self.code().skip(old(self).code().len() as int) + Seq::<SpOpcode>::empty()
                =~= self.code().skip(old(self).code().len() as int));
        }
        Ok(())
    }
}

/// Serializes one instruction onto the end of `bytes`, as its tag and
/// fixed-layout little-endian payload.
pub fn serialize_opcode(opcode: &Opcode, bytes: &mut Vec<u8>)
    ensures
        final(bytes)@ == old(bytes)@ + sp_serialize_op(op_view(*opcode)),
{
    match opcode {
        Opcode::LoadConst(bits) => {
            let ghost pre = bytes@;
            bytes.push(1);
            proof {
                assert(bytes@ =~= pre + seq![1u8]);
            }
            push_le_bytes(bytes, *bits, 8);
            proof {
                assert(bytes@ =~= pre + (seq![1u8] + le_bytes(*bits as int, 8)));
            }
        },
        Opcode::LoadString(s) => {
            let ghost pre = bytes@;
            bytes.push(2);
            let n = s.as_str().len();
            push_le_bytes(bytes, (n as u64) % 0x1_0000_0000u64, 4);
            let bs = s.as_str().as_bytes();
            bytes.extend_from_slice(bs);
            proof {
                assert(((n as u64) % 0x1_0000_0000u64) as int == (encode_utf8(s@).len() as usize)
                    as int % 0x1_0000_0000);
                assert(bytes@ =~= pre + sp_serialize_op(SpOpcode::LoadString(s@)));
            }
        },
        Opcode::LoadVar(slot) => {
            let ghost pre = bytes@;
            bytes.push(3);
            push_le_bytes(bytes, (*slot as u64) % 0x1_0000_0000u64, 4);
            proof {
                assert(((*slot as u64) % 0x1_0000_0000u64) as int == *slot as int % 0x1_0000_0000);
                assert(bytes@ =~= pre + sp_serialize_op(op_view(*opcode)));
            }
        },
        Opcode::StoreVar(slot) => {
            let ghost pre = bytes@;
            bytes.push(4);
            push_le_bytes(bytes, (*slot as u64) % 0x1_0000_0000u64, 4);
            proof {
                assert(((*slot as u64) % 0x1_0000_0000u64) as int == *slot as int % 0x1_0000_0000);
                assert(bytes@ =~= pre + sp_serialize_op(op_view(*opcode)));
            }
        },
        Opcode::Call(entry, argc) => {
            let ghost pre = bytes@;
            bytes.push(5);
            push_le_bytes(bytes, (*entry as u64) % 0x1_0000_0000u64, 4);
            push_le_bytes(bytes, (*argc as u64) % 0x1_0000_0000u64, 4);
            proof {
                assert(((*entry as u64) % 0x1_0000_0000u64) as int == *entry as int
                    % 0x1_0000_0000);
                assert(((*argc as u64) % 0x1_0000_0000u64) as int == *argc as int % 0x1_0000_0000);
                assert(bytes@ =~= pre + sp_serialize_op(op_view(*opcode)));
            }
        },
        Opcode::MakeArray(count) => {
            let ghost pre = bytes@;
            bytes.push(6);
            push_le_bytes(bytes, (*count as u64) % 0x1_0000_0000u64, 4);
            proof {
                assert(((*count as u64) % 0x1_0000_0000u64) as int == *count as int
                    % 0x1_0000_0000);
                assert(bytes@ =~= pre + sp_serialize_op(op_view(*opcode)));
            }
        },
        Opcode::Return => {
            let ghost pre = bytes@;
            bytes.push(7);
            proof {
                assert(bytes@ =~= pre + seq![7u8]);
            }
        },
        Opcode::Output => {
            let ghost pre = bytes@;
            bytes.push(8);
            proof {
                assert(bytes@ =~= pre + seq![8u8]);
            }
        },
    }
}

// ---------------------------------------------------------------------------
// Lemmas and laws
// ---------------------------------------------------------------------------

/// `exprs_view` keeps the element count.
pub proof fn lemma_exprs_view_len(es: Seq<Expression>)
    ensures
        exprs_view(es).len() == es.len(),
    decreases es.len(),
{
    if es.len() > 0 {
        lemma_exprs_view_len(es.drop_first());
    }
}

proof fn lemma_prepend_assoc(pre: Seq<SpOpcode>, tail: Seq<SpOpcode>)
    ensures
        forall|a: Seq<SpOpcode>| (pre + tail) + a =~= pre + (tail + a),
{
}

/// Prepending in two steps is prepending the concatenation.
proof fn lemma_code_prepend_step(
    pre: Seq<SpOpcode>,
    c: Seq<SpOpcode>,
    r: Result<Seq<SpOpcode>, SpCompileError>,
)
    ensures
        code_prepend(
            pre,
            match r {
                Ok(cc) => Ok(c + cc),
                Err(err) => Err(err),
            },
        ) == code_prepend(pre + c, r),
{
    match r {
        Ok(cc) => {
            assert(pre + (c + cc) =~= (pre + c) + cc);
        },
        Err(_) => {},
    }
}

/// Prepending in two steps is prepending the concatenation.
proof fn lemma_out_prepend_step(pre: Seq<SpOpcode>, c: Seq<SpOpcode>, r: Result<
    CompOut,
    SpCompileError,
>)
    ensures
        out_prepend(
            pre,
            match r {
                Ok(o) => Ok(CompOut { code: c + o.code, vars: o.vars, funcs: o.funcs }),
                Err(err) => Err(err),
            },
        ) == out_prepend(pre + c, r),
{
    match r {
        Ok(o) => {
            assert(pre + (c + o.code) =~= (pre + c) + o.code);
        },
        Err(_) => {},
    }
}

/// A `Let` statement lowers to exactly the instructions of its value
/// expression followed by one `StoreVar` of the slot assigned to the declared
/// name (the variable table's size at declaration time), and fails exactly
/// where its value expression fails.
pub proof fn lemma_let_lowering(name: Seq<char>, value: SpExpr, vars: SpEnv, funcs: SpEnv, pc: int)
    ensures
        (match sp_compile_stmt(SpStmt::Let { name, value }, vars, funcs, pc) {
            Ok(out) => sp_compile_expr(value, vars, funcs) matches Ok(c) && out.code == c + seq![
                SpOpcode::StoreVar(vars.len() as int),
            ],
            Err(e) => sp_compile_expr(value, vars, funcs) == Err::<Seq<SpOpcode>, SpCompileError>(
                e,
            ),
        }),
{
}

/// The instruction group of each expression in a list: group `i` is the
/// lowering of element `i`, all under the same tables.
pub open spec fn expr_groups(es: Seq<SpExpr>, vars: SpEnv, funcs: SpEnv) -> Seq<Seq<SpOpcode>> {
    Seq::new(
        es.len(),
        |i: int|
            match sp_compile_expr(es[i], vars, funcs) {
                Ok(c) => c,
                Err(_) => seq![],
            },
    )
}

proof fn lemma_exprs_lowering(es: Seq<SpExpr>, vars: SpEnv, funcs: SpEnv)
    ensures
        (match sp_compile_exprs(es, vars, funcs) {
            Ok(code) => code == expr_groups(es, vars, funcs).flatten() && (forall|i: int|
                0 <= i < es.len() ==> sp_compile_expr(es[i], vars, funcs) is Ok),
            Err(_) => true,
        }),
    decreases es,
{
    if es.len() == 0 {
        assert(expr_groups(es, vars, funcs) =~= Seq::<Seq<SpOpcode>>::empty());
        assert(expr_groups(es, vars, funcs).flatten() =~= Seq::<SpOpcode>::empty());
    } else {
        lemma_exprs_lowering(es.drop_first(), vars, funcs);
        if sp_compile_exprs(es, vars, funcs) is Ok {
            let g0 = sp_compile_expr(es[0], vars, funcs)->Ok_0;
            let groups = expr_groups(es, vars, funcs);
            assert(groups.len() == es.len());
            assert(groups[0] == g0);
            assert(groups.drop_first() =~= expr_groups(es.drop_first(), vars, funcs));
            assert(groups.first() == g0);
            assert(groups.flatten() == g0 + groups.drop_first().flatten());
            assert forall|i: int| 0 <= i < es.len() implies sp_compile_expr(
                es[i],
                vars,
                funcs,
            ) is Ok by {
                if i > 0 {
                    assert(es.drop_first()[i - 1] == es[i]);
                }
            }
        }
    }
}

/// An array literal with `N` elements lowers to exactly the `N` expression
/// instruction groups, in order, followed by one `MakeArray(N)`; it fails
/// exactly where lowering its element list fails.
pub proof fn lemma_array_lowering(elements: Seq<SpExpr>, vars: SpEnv, funcs: SpEnv)
    ensures
        (match sp_compile_expr(SpExpr::Array { elements }, vars, funcs) {
            Ok(code) => code == expr_groups(elements, vars, funcs).flatten() + seq![
                SpOpcode::MakeArray(elements.len() as int),
            ] && (forall|i: int|
                0 <= i < elements.len() ==> sp_compile_expr(elements[i], vars, funcs) is Ok),
            Err(e) => sp_compile_exprs(elements, vars, funcs) == Err::<
                Seq<SpOpcode>,
                SpCompileError,
            >(e),
        }),
{
    lemma_exprs_lowering(elements, vars, funcs);
}

} // verus!
