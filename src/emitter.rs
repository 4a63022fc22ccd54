//! Serialises an IR module into a binary WebAssembly module: the header,
//! then the type, import, function, memory, export, code and data
//! sections, each prefixed by its id and its LEB128 byte length.
use vstd::prelude::*;
use crate::ir::{IRExpr, IRFunction, IRModule, IRStmt};
use crate::leb128::{encode_leb128, leb128, push_leb128};

verus! {

/// Number of host functions imported from the `dom` namespace; user
/// functions are numbered after them.
pub const IMPORT_COUNT: u64 = 3;

/// The most declared functions a module can hold: every function index,
/// the imports and the entry function included, must fit in 32 bits.
pub const MAX_FUNCTIONS: usize = 4294967291;

/// Function index of the synthesized entry function `main`: the first
/// after the imports.
pub const ENTRY_INDEX: u64 = IMPORT_COUNT;

/// `i32.const 0`: the placeholder that every leaf expression pushes.
pub open spec fn const_zero() -> Seq<u8> {
    seq![0x41u8, 0x00u8]
}

/// `global.set 0`: the placeholder store of assignments and reactive updates.
pub open spec fn global_store() -> Seq<u8> {
    seq![0x24u8, 0x00u8]
}

/// `call index`.
pub open spec fn call_code(index: nat) -> Seq<u8> {
    seq![0x10u8] + leb128(index)
}

/// A section: its id, the LEB128 length of its body, then the body.
pub open spec fn section(id: u8, body: Seq<u8>) -> Seq<u8> {
    seq![id] + leb128(body.len()) + body
}

/// A name as the binary format writes it: its length, then its bytes.
pub open spec fn name_code(name: Seq<u8>) -> Seq<u8> {
    leb128(name.len()) + name
}

/// The module header: the magic `\0asm`, then version 1.
pub open spec fn header() -> Seq<u8> {
    seq![0x00u8, 0x61u8, 0x73u8, 0x6du8, 0x01u8, 0x00u8, 0x00u8, 0x00u8]
}

pub open spec fn dom_name() -> Seq<u8> {
    seq![0x64u8, 0x6fu8, 0x6du8]
}

pub open spec fn set_inner_html_name() -> Seq<u8> {
    seq![
        0x73u8, 0x65u8, 0x74u8, 0x5fu8, 0x69u8, 0x6eu8, 0x6eu8, 0x65u8, 0x72u8, 0x5fu8, 0x68u8,
        0x74u8, 0x6du8, 0x6cu8,
    ]
}

pub open spec fn add_event_listener_name() -> Seq<u8> {
    seq![
        0x61u8, 0x64u8, 0x64u8, 0x5fu8, 0x65u8, 0x76u8, 0x65u8, 0x6eu8, 0x74u8, 0x5fu8, 0x6cu8,
        0x69u8, 0x73u8, 0x74u8, 0x65u8, 0x6eu8, 0x65u8, 0x72u8,
    ]
}

pub open spec fn get_element_by_id_name() -> Seq<u8> {
    seq![
        0x67u8, 0x65u8, 0x74u8, 0x5fu8, 0x65u8, 0x6cu8, 0x65u8, 0x6du8, 0x65u8, 0x6eu8, 0x74u8,
        0x5fu8, 0x62u8, 0x79u8, 0x5fu8, 0x69u8, 0x64u8,
    ]
}

pub open spec fn memory_name() -> Seq<u8> {
    seq![0x6du8, 0x65u8, 0x6du8, 0x6fu8, 0x72u8, 0x79u8]
}

pub open spec fn main_name() -> Seq<u8> {
    seq![0x6du8, 0x61u8, 0x69u8, 0x6eu8]
}

/// The signatures: 0 is `(i32, i32) -> i32`, 1 is `() -> ()`, 2 is
/// `(i32) -> ()`, 3 is `(i32) -> i32`.
pub open spec fn type_body() -> Seq<u8> {
    seq![
        0x04u8, 0x60u8, 0x02u8, 0x7fu8, 0x7fu8, 0x01u8, 0x7fu8, 0x60u8, 0x00u8, 0x00u8, 0x60u8,
        0x01u8, 0x7fu8, 0x00u8, 0x60u8, 0x01u8, 0x7fu8, 0x01u8, 0x7fu8,
    ]
}

/// One imported function of the `dom` namespace, with its type index.
pub open spec fn import_entry(name: Seq<u8>, type_index: u8) -> Seq<u8> {
    name_code(dom_name()) + name_code(name) + seq![0x00u8, type_index]
}

/// The three host imports, in the order of their function indices.
pub open spec fn import_body() -> Seq<u8> {
    seq![0x03u8] + import_entry(set_inner_html_name(), 0) + import_entry(
        add_event_listener_name(),
        0,
    ) + import_entry(get_element_by_id_name(), 3)
}

/// One type index, `() -> ()`, for the entry function and for each of the
/// `n` declared functions.
pub open spec fn function_body(n: nat) -> Seq<u8> {
    leb128(n + 1) + Seq::new(n + 1, |i: int| 0x01u8)
}

/// One memory of at least one page, with no maximum.
pub open spec fn memory_body() -> Seq<u8> {
    seq![0x01u8, 0x00u8, 0x01u8]
}

/// Exports the memory as `memory` and the entry function as `main`.
pub open spec fn export_body() -> Seq<u8> {
    seq![0x02u8] + name_code(memory_name()) + seq![0x02u8, 0x00u8] + name_code(main_name())
        + seq![0x00u8, 0x03u8]
}

/// A placeholder data segment at offset 0 of memory 0.
pub open spec fn data_body() -> Seq<u8> {
    seq![0x01u8, 0x00u8, 0x41u8, 0x00u8, 0x0bu8, 0x05u8, 0x48u8, 0x65u8, 0x6cu8, 0x6cu8, 0x6fu8]
}

/// The instructions that evaluate an expression.
pub open spec fn expr_code(e: IRExpr) -> Seq<u8>
    decreases e,
{
    match e {
        IRExpr::Await(inner) => expr_code(*inner),
        IRExpr::Option(inner) => expr_code(*inner),
        IRExpr::Result { ok, err } => expr_code(*ok) + expr_code(*err),
        IRExpr::Comprehension { iter, filter, expr, .. } => expr_code(*iter) + match filter {
            Some(f) => expr_code(*f),
            None => Seq::empty(),
        } + expr_code(*expr),
        _ => const_zero(),
    }
}

/// The instructions that evaluate a list of expressions in order.
pub open spec fn exprs_code(es: Seq<IRExpr>) -> Seq<u8>
    decreases es.len(),
{
    if es.len() == 0 {
        Seq::empty()
    } else {
        exprs_code(es.drop_last()) + expr_code(es.last())
    }
}

/// The names a call statement dispatches on.
pub enum Intrinsic {
    SetInnerHtml,
    AddEventListener,
    CellCreate,
    RenderView,
    Other,
}

pub open spec fn intrinsic_of(name: Seq<char>) -> Intrinsic {
    if name == "dom.set_inner_html"@ || name == "dom::set_inner_html"@ {
        Intrinsic::SetInnerHtml
    } else if name == "dom.add_event_listener"@ || name == "dom::add_event_listener"@ {
        Intrinsic::AddEventListener
    } else if name == "cell_create"@ {
        Intrinsic::CellCreate
    } else if name == "render_view"@ {
        Intrinsic::RenderView
    } else {
        Intrinsic::Other
    }
}

/// What follows the arguments of a call: a call of the matching import, a
/// store, or a `drop` of the unused result.
pub open spec fn call_tail(kind: Intrinsic) -> Seq<u8> {
    match kind {
        Intrinsic::SetInnerHtml => call_code(0),
        Intrinsic::AddEventListener => call_code(1),
        Intrinsic::CellCreate => global_store(),
        Intrinsic::RenderView => call_code(0),
        Intrinsic::Other => seq![0x1au8],
    }
}

pub open spec fn opt_expr_code(e: Option<IRExpr>) -> Seq<u8> {
    match e {
        Some(x) => expr_code(x),
        None => Seq::empty(),
    }
}

/// The instructions of one statement. Calls, renders, DOM operations and
/// event bindings evaluate their arguments and call the matching import;
/// assignments and reactive updates store; `return` emits the instruction
/// that leaves the function there.
pub open spec fn stmt_code(s: IRStmt) -> Seq<u8> {
    match s {
        IRStmt::Call { func, args } => exprs_code(args@) + call_tail(intrinsic_of(func@)),
        IRStmt::Assign { value, .. } => expr_code(value) + global_store(),
        IRStmt::Await(e) => expr_code(e),
        IRStmt::Reactive { expr, .. } => expr_code(expr) + global_store(),
        IRStmt::Comprehension { iter, filter, expr, .. } => expr_code(iter) + opt_expr_code(filter)
            + expr_code(expr),
        IRStmt::Render(e) => expr_code(e) + call_code(0),
        IRStmt::EventBind { .. } => const_zero() + const_zero() + call_code(1),
        IRStmt::DomOp { args, .. } => exprs_code(args@) + call_code(0),
        IRStmt::Return(e) => opt_expr_code(e) + seq![0x0fu8],
    }
}

/// The instructions of a list of statements, in order.
pub open spec fn stmts_code(ss: Seq<IRStmt>) -> Seq<u8>
    decreases ss.len(),
{
    if ss.len() == 0 {
        Seq::empty()
    } else {
        stmts_code(ss.drop_last()) + stmt_code(ss.last())
    }
}

/// A function's code entry: the length of its body, then the body (no
/// locals, the instructions, `end`).
pub open spec fn code_entry(instructions: Seq<u8>) -> Seq<u8> {
    let body = leb128(0) + instructions + seq![0x0bu8];
    leb128(body.len()) + body
}

/// The entry function calls each of the `n` declared functions in order.
/// Function indices count the imports first, then the entry function, so
/// declared function `i` (from 0) has index `ENTRY_INDEX + 1 + i`.
pub open spec fn entry_calls(n: nat) -> Seq<u8>
    decreases n,
{
    if n == 0 {
        Seq::empty()
    } else {
        entry_calls((n - 1) as nat) + call_code(ENTRY_INDEX as nat + n)
    }
}

pub open spec fn functions_code(fs: Seq<IRFunction>) -> Seq<u8>
    decreases fs.len(),
{
    if fs.len() == 0 {
        Seq::empty()
    } else {
        functions_code(fs.drop_last()) + code_entry(stmts_code(fs.last().body@))
    }
}

/// The code section's body: the count, the entry function, then each
/// declared function.
pub open spec fn code_body(fs: Seq<IRFunction>) -> Seq<u8> {
    leb128(fs.len() + 1) + code_entry(entry_calls(fs.len())) + functions_code(fs)
}

/// The whole module.
pub open spec fn module_bytes(fs: Seq<IRFunction>) -> Seq<u8> {
    header() + section(1, type_body()) + section(2, import_body()) + section(
        3,
        function_body(fs.len()),
    ) + section(5, memory_body()) + section(7, export_body()) + section(10, code_body(fs))
        + section(11, data_body())
}

fn append_bytes(out: &mut Vec<u8>, bytes: &Vec<u8>)
    ensures
        final(out)@ == old(out)@ + bytes@,
{
    let mut i: usize = 0;
    while i < bytes.len()
        invariant
            i <= bytes@.len(),
            out@ == old(out)@ + bytes@.subrange(0, i as int),
        decreases bytes@.len() - i,
    {
        out.push(bytes[i]);
        proof {
            assert(bytes@.subrange(0, i as int + 1) == bytes@.subrange(0, i as int).push(
                bytes@[i as int],
            ));
        }
        i = i + 1;
    }
    proof {
        assert(bytes@.subrange(0, bytes@.len() as int) == bytes@);
    }
}

/// Wraps a finished body into a section: id, LEB128 length, body.
pub fn make_section(id: u8, body: &Vec<u8>) -> (r: Vec<u8>)
    ensures
        r@ == section(id, body@),
{
    let mut out: Vec<u8> = Vec::new();
    out.push(id);
    push_leb128(&mut out, body.len() as u64);
    append_bytes(&mut out, body);
    proof {
        assert(out@ =~= section(id, body@));
    }
    out
}

fn push_call(out: &mut Vec<u8>, index: u64)
    ensures
        final(out)@ == old(out)@ + call_code(index as nat),
{
    out.push(0x10);
    push_leb128(out, index);
    proof {
        assert(final(out)@ =~= old(out)@ + call_code(index as nat));
    }
}

fn push_const_zero(out: &mut Vec<u8>)
    ensures
        final(out)@ == old(out)@ + const_zero(),
{
    out.push(0x41);
    out.push(0x00);
    proof {
        assert(final(out)@ =~= old(out)@ + const_zero());
    }
}

fn push_global_store(out: &mut Vec<u8>)
    ensures
        final(out)@ == old(out)@ + global_store(),
{
    out.push(0x24);
    out.push(0x00);
    proof {
        assert(final(out)@ =~= old(out)@ + global_store());
    }
}

/// The type section.
pub fn create_type_section() -> (r: Vec<u8>)
    ensures
        r@ == section(1, type_body()),
{
    let body: Vec<u8> = vec![
        0x04, 0x60, 0x02, 0x7f, 0x7f, 0x01, 0x7f, 0x60, 0x00, 0x00, 0x60, 0x01, 0x7f, 0x00,
        0x60, 0x01, 0x7f, 0x01, 0x7f,
    ];
    proof {
        assert(body@ =~= type_body());
    }
    make_section(1, &body)
}

fn push_name(out: &mut Vec<u8>, name: &Vec<u8>)
    ensures
        final(out)@ == old(out)@ + name_code(name@),
{
    push_leb128(out, name.len() as u64);
    append_bytes(out, name);
    proof {
        assert(final(out)@ =~= old(out)@ + name_code(name@));
    }
}

fn push_import(out: &mut Vec<u8>, name: &Vec<u8>, type_index: u8)
    ensures
        final(out)@ == old(out)@ + import_entry(name@, type_index),
{
    let dom: Vec<u8> = vec![0x64, 0x6f, 0x6d];
    proof {
        assert(dom@ =~= dom_name());
    }
    push_name(out, &dom);
    push_name(out, name);
    out.push(0x00);
    out.push(type_index);
    proof {
        assert(final(out)@ =~= old(out)@ + import_entry(name@, type_index));
    }
}

/// The import section: `set_inner_html`, `add_event_listener` and
/// `get_element_by_id` from `dom`.
pub fn create_import_section() -> (r: Vec<u8>)
    ensures
        r@ == section(2, import_body()),
{
    let set_inner_html: Vec<u8> = vec![
        0x73, 0x65, 0x74, 0x5f, 0x69, 0x6e, 0x6e, 0x65, 0x72, 0x5f, 0x68, 0x74, 0x6d, 0x6c,
    ];
    let add_event_listener: Vec<u8> = vec![
        0x61, 0x64, 0x64, 0x5f, 0x65, 0x76, 0x65, 0x6e, 0x74, 0x5f, 0x6c, 0x69, 0x73, 0x74,
        0x65, 0x6e, 0x65, 0x72,
    ];
    let get_element_by_id: Vec<u8> = vec![
        0x67, 0x65, 0x74, 0x5f, 0x65, 0x6c, 0x65, 0x6d, 0x65, 0x6e, 0x74, 0x5f, 0x62, 0x79,
        0x5f, 0x69, 0x64,
    ];
    proof {
        assert(set_inner_html@ =~= set_inner_html_name());
        assert(add_event_listener@ =~= add_event_listener_name());
        assert(get_element_by_id@ =~= get_element_by_id_name());
    }
    let mut body: Vec<u8> = Vec::new();
    body.push(0x03);
    push_import(&mut body, &set_inner_html, 0);
    push_import(&mut body, &add_event_listener, 0);
    push_import(&mut body, &get_element_by_id, 3);
    proof {
        assert(body@ =~= import_body());
    }
    make_section(2, &body)
}

/// The function section: every function, the entry function first, has
/// type `() -> ()`.
pub fn create_function_section(module: &IRModule) -> (r: Vec<u8>)
    requires
        module.functions@.len() + 4 <= u32::MAX,
    ensures
        r@ == section(3, function_body(module.functions@.len())),
{
    let count: u64 = module.functions.len() as u64 + 1;
    let mut body: Vec<u8> = Vec::new();
    push_leb128(&mut body, count);
    let ghost start = body@;
    let mut i: u64 = 0;
    while i < count
        invariant
            i <= count,
            count == module.functions@.len() + 1,
            body@ == start + Seq::new(i as nat, |k: int| 0x01u8),
        decreases count - i,
    {
        body.push(0x01);
        proof {
            assert(Seq::new(i as nat, |k: int| 0x01u8).push(0x01u8) =~= Seq::new(
                (i + 1) as nat,
                |k: int| 0x01u8,
            ));
        }
        i = i + 1;
    }
    make_section(3, &body)
}

/// The memory section.
pub fn create_memory_section() -> (r: Vec<u8>)
    ensures
        r@ == section(5, memory_body()),
{
    let body: Vec<u8> = vec![0x01, 0x00, 0x01];
    proof {
        assert(body@ =~= memory_body());
    }
    make_section(5, &body)
}

/// The export section.
pub fn create_export_section() -> (r: Vec<u8>)
    ensures
        r@ == section(7, export_body()),
{
    let body: Vec<u8> = vec![
        0x02, 0x06, 0x6d, 0x65, 0x6d, 0x6f, 0x72, 0x79, 0x02, 0x00, 0x04, 0x6d, 0x61, 0x69,
        0x6e, 0x00, 0x03,
    ];
    proof {
        reveal_with_fuel(leb128, 1);
        assert(leb128(6) == seq![6u8]);
        assert(leb128(4) == seq![4u8]);
        assert(body@ =~= export_body());
    }
    make_section(7, &body)
}

/// The data section.
pub fn create_data_section() -> (r: Vec<u8>)
    ensures
        r@ == section(11, data_body()),
{
    let body: Vec<u8> = vec![
        0x01, 0x00, 0x41, 0x00, 0x0b, 0x05, 0x48, 0x65, 0x6c, 0x6c, 0x6f,
    ];
    proof {
        assert(body@ =~= data_body());
    }
    make_section(11, &body)
}

/// Tells which catalog entry a called name is.
pub fn classify_call(name: &String) -> (r: Intrinsic)
    ensures
        r == intrinsic_of(name@),
{
    if *name == String::from_str("dom.set_inner_html") || *name == String::from_str(
        "dom::set_inner_html",
    ) {
        Intrinsic::SetInnerHtml
    } else if *name == String::from_str("dom.add_event_listener") || *name == String::from_str(
        "dom::add_event_listener",
    ) {
        Intrinsic::AddEventListener
    } else if *name == String::from_str("cell_create") {
        Intrinsic::CellCreate
    } else if *name == String::from_str("render_view") {
        Intrinsic::RenderView
    } else {
        Intrinsic::Other
    }
}

/// Appends the instructions that evaluate `expr`.
pub fn generate_expression(expr: &IRExpr, body: &mut Vec<u8>)
    ensures
        final(body)@ == old(body)@ + expr_code(*expr),
    decreases expr,
{
    match expr {
        IRExpr::Await(inner) => generate_expression(inner, body),
        IRExpr::Option(inner) => generate_expression(inner, body),
        IRExpr::Result { ok, err } => {
            generate_expression(ok, body);
            generate_expression(err, body);
            proof {
                assert(final(body)@ =~= old(body)@ + expr_code(*expr));
            }
        },
        IRExpr::Comprehension { iter, filter, expr: item, .. } => {
            generate_expression(iter, body);
            match filter {
                Some(f) => generate_expression(f, body),
                None => {},
            }
            generate_expression(item, body);
            proof {
                assert(final(body)@ =~= old(body)@ + expr_code(*expr));
            }
        },
        _ => push_const_zero(body),
    }
}

fn generate_expressions(args: &Vec<IRExpr>, body: &mut Vec<u8>)
    ensures
        final(body)@ == old(body)@ + exprs_code(args@),
{
    let mut i: usize = 0;
    while i < args.len()
        invariant
            i <= args@.len(),
            body@ == old(body)@ + exprs_code(args@.subrange(0, i as int)),
        decreases args@.len() - i,
    {
        generate_expression(&args[i], body);
        proof {
            let next = args@.subrange(0, i as int + 1);
            assert(next.drop_last() =~= args@.subrange(0, i as int));
            assert(body@ =~= old(body)@ + exprs_code(next));
        }
        i = i + 1;
    }
    proof {
        assert(args@.subrange(0, args@.len() as int) =~= args@);
    }
}

fn generate_opt_expression(expr: &Option<IRExpr>, body: &mut Vec<u8>)
    ensures
        final(body)@ == old(body)@ + opt_expr_code(*expr),
{
    match expr {
        Some(e) => generate_expression(e, body),
        None => {
            proof {
                assert(body@ =~= old(body)@ + opt_expr_code(*expr));
            }
        },
    }
}

/// Appends the instructions of one statement.
pub fn generate_statement(stmt: &IRStmt, body: &mut Vec<u8>)
    ensures
        final(body)@ == old(body)@ + stmt_code(*stmt),
{
    match stmt {
        IRStmt::Call { func, args } => {
            generate_expressions(args, body);
            match classify_call(func) {
                Intrinsic::SetInnerHtml => push_call(body, 0),
                Intrinsic::AddEventListener => push_call(body, 1),
                Intrinsic::CellCreate => push_global_store(body),
                Intrinsic::RenderView => push_call(body, 0),
                Intrinsic::Other => body.push(0x1a),
            }
        },
        IRStmt::Assign { value, .. } => {
            generate_expression(value, body);
            push_global_store(body);
        },
        IRStmt::Await(e) => generate_expression(e, body),
        IRStmt::Reactive { expr, .. } => {
            generate_expression(expr, body);
            push_global_store(body);
        },
        IRStmt::Comprehension { iter, filter, expr, .. } => {
            generate_expression(iter, body);
            generate_opt_expression(filter, body);
            generate_expression(expr, body);
        },
        IRStmt::Render(e) => {
            generate_expression(e, body);
            push_call(body, 0);
        },
        IRStmt::EventBind { .. } => {
            push_const_zero(body);
            push_const_zero(body);
            push_call(body, 1);
        },
        IRStmt::DomOp { args, .. } => {
            generate_expressions(args, body);
            push_call(body, 0);
        },
        IRStmt::Return(e) => {
            generate_opt_expression(e, body);
            body.push(0x0f);
        },
    }
    proof {
        assert(final(body)@ =~= old(body)@ + stmt_code(*stmt));
    }
}

/// Wraps instructions into a code entry: length, no locals, the
/// instructions, `end`.
fn finish_body(instructions: &Vec<u8>) -> (r: Vec<u8>)
    ensures
        r@ == code_entry(instructions@),
{
    let mut body: Vec<u8> = Vec::new();
    push_leb128(&mut body, 0);
    append_bytes(&mut body, instructions);
    body.push(0x0b);
    let mut entry: Vec<u8> = Vec::new();
    push_leb128(&mut entry, body.len() as u64);
    append_bytes(&mut entry, &body);
    proof {
        assert(entry@ =~= code_entry(instructions@));
    }
    entry
}

/// The code entry of one function: its statements in order.
pub fn generate_function_body(func: &IRFunction) -> (r: Vec<u8>)
    ensures
        r@ == code_entry(stmts_code(func.body@)),
{
    let mut instructions: Vec<u8> = Vec::new();
    let mut i: usize = 0;
    while i < func.body.len()
        invariant
            i <= func.body@.len(),
            instructions@ == stmts_code(func.body@.subrange(0, i as int)),
        decreases func.body@.len() - i,
    {
        generate_statement(&func.body[i], &mut instructions);
        proof {
            let next = func.body@.subrange(0, i as int + 1);
            assert(next.drop_last() =~= func.body@.subrange(0, i as int));
        }
        i = i + 1;
    }
    proof {
        assert(func.body@.subrange(0, func.body@.len() as int) =~= func.body@);
    }
    finish_body(&instructions)
}

/// The code entry of the entry function: a call of each declared function.
pub fn generate_main_function(module: &IRModule) -> (r: Vec<u8>)
    requires
        module.functions@.len() + 4 <= u32::MAX,
    ensures
        r@ == code_entry(entry_calls(module.functions@.len())),
{
    let n: u64 = module.functions.len() as u64;
    let mut instructions: Vec<u8> = Vec::new();
    let mut i: u64 = 0;
    while i < n
        invariant
            i <= n,
            n == module.functions@.len(),
            n + 4 <= u32::MAX,
            instructions@ == entry_calls(i as nat),
        decreases n - i,
    {
        push_call(&mut instructions, ENTRY_INDEX + 1 + i);
        i = i + 1;
    }
    finish_body(&instructions)
}

/// The code section: the entry function, then every declared function.
pub fn create_code_section(module: &IRModule) -> (r: Vec<u8>)
    requires
        module.functions@.len() + 4 <= u32::MAX,
    ensures
        r@ == section(10, code_body(module.functions@)),
{
    let mut body: Vec<u8> = Vec::new();
    push_leb128(&mut body, module.functions.len() as u64 + 1);
    let main_entry = generate_main_function(module);
    append_bytes(&mut body, &main_entry);
    let ghost start = body@;
    let mut i: usize = 0;
    while i < module.functions.len()
        invariant
            i <= module.functions@.len(),
            body@ == start + functions_code(module.functions@.subrange(0, i as int)),
        decreases module.functions@.len() - i,
    {
        let entry = generate_function_body(&module.functions[i]);
        append_bytes(&mut body, &entry);
        proof {
            let next = module.functions@.subrange(0, i as int + 1);
            assert(next.drop_last() =~= module.functions@.subrange(0, i as int));
            assert(body@ =~= start + functions_code(next));
        }
        i = i + 1;
    }
    proof {
        assert(module.functions@.subrange(0, module.functions@.len() as int) =~= module.functions@);
        assert(body@ =~= code_body(module.functions@));
    }
    make_section(10, &body)
}

/// The binary module of `module`.
pub fn generate_wasm_binary(module: &IRModule) -> (r: Vec<u8>)
    requires
        module.functions@.len() + 4 <= u32::MAX,
    ensures
        r@ == module_bytes(module.functions@),
{
    let mut wasm: Vec<u8> = vec![0x00, 0x61, 0x73, 0x6d, 0x01, 0x00, 0x00, 0x00];
    proof {
        assert(wasm@ =~= header());
    }
    append_bytes(&mut wasm, &create_type_section());
    append_bytes(&mut wasm, &create_import_section());
    append_bytes(&mut wasm, &create_function_section(module));
    append_bytes(&mut wasm, &create_memory_section());
    append_bytes(&mut wasm, &create_export_section());
    append_bytes(&mut wasm, &create_code_section(module));
    append_bytes(&mut wasm, &create_data_section());
    wasm
}

/// Length of the header and of the two fixed sections before the function
/// section.
pub open spec fn fixed_prefix_len() -> int {
    8 + section(1, type_body()).len() as int + section(2, import_body()).len() as int
}

/// Every module starts with the header `00 61 73 6D 01 00 00 00`; its import
/// section, right after the type section, lists exactly `set_inner_html`,
/// `add_event_listener` and `get_element_by_id` from `dom`; and its export
/// section, after the function and memory sections, exports `main`.
#[verifier::rlimit(40)]
pub proof fn lemma_module_layout(fs: Seq<IRFunction>)
    ensures
        module_bytes(fs).subrange(0, 8) == seq![0x00u8, 0x61u8, 0x73u8, 0x6du8, 0x01u8, 0x00u8, 0x00u8, 0x00u8],
        module_bytes(fs).subrange(8 + section(1, type_body()).len() as int, fixed_prefix_len())
            == section(2, import_body()),
        import_body() == seq![0x03u8] + name_code(dom_name()) + name_code(set_inner_html_name())
            + seq![0x00u8, 0x00u8] + name_code(dom_name()) + name_code(add_event_listener_name())
            + seq![0x00u8, 0x00u8] + name_code(dom_name()) + name_code(get_element_by_id_name())
            + seq![0x00u8, 0x03u8],
        ({
            let at = fixed_prefix_len() + section(3, function_body(fs.len())).len() + section(
                5,
                memory_body(),
            ).len();
            module_bytes(fs).subrange(at, at + section(7, export_body()).len()) == section(
                7,
                export_body(),
            )
        }),
        export_body().subrange(10, 15) == name_code(main_name()),
{
    let t = section(1, type_body());
    let im = section(2, import_body());
    let f = section(3, function_body(fs.len()));
    let m = section(5, memory_body());
    let e = section(7, export_body());
    let rest = section(10, code_body(fs)) + section(11, data_body());
    let all = module_bytes(fs);
    assert(all =~= header() + t + im + f + m + e + rest);
    assert(all.subrange(0, 8) =~= header());
    assert(all.subrange(8 + t.len() as int, fixed_prefix_len()) =~= im);
    assert(import_body() =~= seq![0x03u8] + name_code(dom_name()) + name_code(set_inner_html_name())
        + seq![0x00u8, 0x00u8] + name_code(dom_name()) + name_code(add_event_listener_name())
        + seq![0x00u8, 0x00u8] + name_code(dom_name()) + name_code(get_element_by_id_name())
        + seq![0x00u8, 0x03u8]);
    let at = fixed_prefix_len() + f.len() + m.len();
    assert(all.subrange(at, at + e.len()) =~= e);
    reveal_with_fuel(leb128, 1);
    assert(name_code(memory_name()) =~= seq![6u8] + memory_name());
    assert(name_code(main_name()) =~= seq![4u8] + main_name());
    assert(export_body().subrange(10, 15) =~= name_code(main_name()));
}

} // verus!
