use vstd::prelude::*;

use crate::annotate::{annotate_program, annotated_model, header_annotated, program_diags, span_of};
use crate::ast::{AstCodeBlock, AstExpression, AstHeader, AstStatement, AstType, PathData, TypeModel};
use crate::qir::{
    binds_local, branches_balanced, context_free, ir_type, last_op, lemma_net_retains_concat, net_retains, ref_delta, refcounts_balanced,
    QIRBasicBlock, QIRExpression, QIRHeader, QIRLocalVariable, QIRType,
};
use crate::types::{declared_name, gathered, find_entry, gather_all, gather_diags, last_position, lemma_last_position_bounds, lookup, registered_by, Diagnostic, ProgramType, TypeInformation};

verus! {

broadcast use vstd::std_specs::vec::group_vec_axioms, vstd::seq::group_seq_axioms;

/// The physical type of a source type.
pub fn lower_type(t: &AstType) -> (r: QIRType)
    ensures
        r == ir_type(t@),
{
    match t {
        AstType::Int32 => QIRType::Int32,
        AstType::Int64 => QIRType::Int64,
        AstType::Float32 => QIRType::Float32,
        AstType::Float64 => QIRType::Float64,
        AstType::ArrayOf(_) => QIRType::Ptr,
        AstType::Structure(_) => QIRType::Ptr,
        AstType::UnionOf(_, _) => QIRType::Ptr,
        AstType::Void => QIRType::Void,
        AstType::Invalid => QIRType::Invalid,
    }
}

/// `layout` is the physical layout of a structure with the declared `fields`: the 32-bit
/// type identifier and reference count, then the physical type of each field in order.
pub open spec fn is_layout(layout: Seq<QIRType>, fields: Seq<(String, AstType)>) -> bool {
    &&& layout.len() == fields.len() + 2
    &&& layout[0] == QIRType::Int32
    &&& layout[1] == QIRType::Int32
    &&& forall|i: int| 2 <= i < layout.len() ==> #[trigger] layout[i] == ir_type(fields[i - 2].1@)
}

/// The physical layout of a structure with the given fields.
pub fn struct_layout(fields: &Vec<(String, AstType)>) -> (r: Vec<QIRType>)
    requires
        fields@.len() + 2 <= usize::MAX,
    ensures
        is_layout(r@, fields@),
{
    let mut r: Vec<QIRType> = Vec::new();
    r.push(QIRType::Int32);
    r.push(QIRType::Int32);
    let mut i: usize = 0;
    while i < fields.len()
        invariant
            i <= fields@.len(),
            r@.len() == i + 2,
            r@[0] == QIRType::Int32,
            r@[1] == QIRType::Int32,
            forall|j: int| 2 <= j < r@.len() ==> #[trigger] r@[j] == ir_type(fields@[j - 2].1@),
        decreases fields@.len() - i,
    {
        r.push(lower_type(&fields[i].1));
        i = i + 1;
    }
    r
}

/// `q` loads the local `name`.
pub open spec fn loads_local(q: QIRExpression, name: Seq<char>) -> bool {
    q matches QIRExpression::LoadFromPtr { ptr } && (*ptr matches QIRExpression::GetLocalPtr {
        local,
    } && local.name@ == name)
}

/// `q` loads scratch storage `index`.
pub open spec fn loads_temporary(q: QIRExpression, index: int) -> bool {
    q matches QIRExpression::LoadFromPtr { ptr } && (*ptr matches QIRExpression::GetTemporaryPtr { index: i }
        && i == index)
}

/// `q` is a pointer to scratch storage `index`.
pub open spec fn is_temporary(q: QIRExpression, index: int) -> bool {
    q matches QIRExpression::GetTemporaryPtr { index: i } && i == index
}

/// The physical type of an annotated expression.
pub open spec fn lowered_type(e: AstExpression) -> QIRType {
    ir_type(annotated_model(e))
}

/// The structure a literal allocates, when the type table declares it and every field
/// the literal names: its declared fields and type identifier (its position in the
/// type table).
pub open spec fn allocation(value: AstExpression, table: Seq<(String, ProgramType)>) -> Option<(Seq<(String, AstType)>, int)> {
    match value {
        AstExpression::StructureLiteral { name, fields, .. } => {
            let p = last_position(table, name.name@);
            if p >= 0 {
                match table[p].1 {
                    ProgramType::Structure { fields: declared, .. } => if declared@.len() <= usize::MAX - 2
                        && forall|j: int| 0 <= j < fields@.len() ==> last_position(declared@, (#[trigger] fields@[j]).0@) >= 0 {
                        Some((declared@, p))
                    } else {
                        None
                    },
                    _ => None,
                }
            } else {
                None
            }
        },
        _ => None,
    }
}

/// `q` is a pointer to field `index` of the structure, laid out for `declared`, that
/// scratch storage `target` points to.
pub open spec fn field_pointer(q: QIRExpression, target: int, declared: Seq<(String, AstType)>, t: QIRType, index: int) -> bool {
    q matches QIRExpression::GetFieldPtr { receiver, ptr_type, output_type, field } && loads_temporary(*receiver, target)
        && is_layout(ptr_type@, declared) && output_type == t && field == index
}

/// `q` is the lowering of the annotated expression `e`, where scratch storage from
/// `depth` on is free: a number becomes a constant of its physical type, a string a
/// string object, a variable a load through the local's address, an operator a call of
/// the runtime routine for the operator and the operands' type, a call of a named
/// function a call with the lowered arguments, and a structure literal the allocation of
/// the structure into scratch storage `depth` followed by the stores of its fields.
/// Any other form becomes `Invalid`.
pub open spec fn lowered_expr(e: AstExpression, q: QIRExpression, depth: int, table: Seq<(String, ProgramType)>) -> bool
    decreases e, 0nat,
{
    match e {
        AstExpression::NumberLiteral { content, .. } => q == QIRExpression::Constant {
            content,
            ty: lowered_type(e),
        },
        AstExpression::StringLiteral { content, .. } => q == QIRExpression::StringConstant { content },
        AstExpression::VariableLiteral { content, .. } => loads_local(q, content@),
        AstExpression::Binary { op, left, right, .. } => q matches QIRExpression::RuntimeCall {
            op: op2,
            operand_type,
            arguments,
            return_type,
        } && op2 == op && operand_type == lowered_type(*left) && return_type == lowered_type(e)
            && arguments@.len() == 2 && lowered_expr(*left, arguments@[0], depth, table) && lowered_expr(
            *right,
            arguments@[1],
            depth,
            table,
        ),
        AstExpression::Invoke { receiver, arguments, .. } => match *receiver {
            AstExpression::VariableLiteral { content, token, .. } => q matches QIRExpression::Invoke {
                name,
                arguments: a2,
                return_type,
            } && name == (PathData { name: content, token }) && return_type == lowered_type(e)
                && a2@.len() == arguments@.len() && forall|j: int|
                0 <= j < arguments@.len() ==> lowered_expr(#[trigger] arguments@[j], a2@[j], depth, table),
            AstExpression::PathLiteral(p) => q matches QIRExpression::Invoke {
                name,
                arguments: a2,
                return_type,
            } && name == p && return_type == lowered_type(e) && a2@.len() == arguments@.len()
                && forall|j: int| 0 <= j < arguments@.len() ==> lowered_expr(#[trigger] arguments@[j], a2@[j], depth, table),
            _ => q == QIRExpression::Invalid,
        },
        AstExpression::StructureLiteral { name, fields, .. } => match allocation(e, table) {
            Some((declared, type_id)) => if 0 <= depth && depth + 2 < usize::MAX {
                q matches QIRExpression::BuildStructure { operations, temporary } && temporary == depth
                    && operations.exprs@.len() >= 1 && (operations.exprs@[0] matches QIRExpression::StoreToPtr {
                    receiver,
                    output_type,
                    new_value,
                } && is_temporary(*receiver, depth) && output_type == QIRType::Ptr && *new_value
                    == (QIRExpression::InstantiateStructure { name, type_id: type_id as usize, reference_count: 1 }))
                    && field_ops(depth, fields@, 0, declared, table, operations.exprs@.skip(1))
            } else {
                q == QIRExpression::Invalid
            },
            None => q == QIRExpression::Invalid,
        },
        _ => q == QIRExpression::Invalid,
    }
}

/// `seg` stores the fields `j..` of a structure literal, in order, through scratch
/// storage `target`: each field goes to the physical index of the declared field of its
/// name (its position + 2). A pointer is first computed into scratch storage
/// `target + 1` and retained, then stored.
pub open spec fn field_ops(
    target: int,
    fields: Seq<(String, AstExpression)>,
    j: int,
    declared: Seq<(String, AstType)>,
    table: Seq<(String, ProgramType)>,
    seg: Seq<QIRExpression>,
) -> bool
    decreases fields, fields.len() - j,
{
    if j < 0 || j >= fields.len() {
        seg.len() == 0
    } else {
        let t = lowered_type(fields[j].1);
        let index = last_position(declared, fields[j].0@) + 2;
        let n: int = if t == QIRType::Ptr {
            3
        } else {
            1
        };
        &&& seg.len() >= n
        &&& if t == QIRType::Ptr {
            &&& seg[0] matches QIRExpression::StoreToPtr { receiver, output_type, new_value } && is_temporary(
                *receiver,
                target + 1,
            ) && output_type == QIRType::Ptr && lowered_expr(fields[j].1, *new_value, target + 1, table)
            &&& seg[1] matches QIRExpression::Retain { ptr } && loads_temporary(*ptr, target + 1)
            &&& seg[2] matches QIRExpression::StoreToPtr { receiver, output_type, new_value } && output_type
                == QIRType::Ptr && field_pointer(*receiver, target, declared, QIRType::Ptr, index) && loads_temporary(
                *new_value,
                target + 1,
            )
        } else {
            seg[0] matches QIRExpression::StoreToPtr { receiver, output_type, new_value } && output_type == t
                && field_pointer(*receiver, target, declared, t, index) && lowered_expr(
                fields[j].1,
                *new_value,
                target + 1,
                table,
            )
        }
        &&& field_ops(target, fields, j + 1, declared, table, seg.skip(n))
    }
}

/// The diagnostics of lowering the first `n` expressions of a list.
pub open spec fn lower_list_diags(elems: Seq<AstExpression>, n: int, depth: int, table: Seq<(String, ProgramType)>) -> Seq<Diagnostic>
    decreases elems, n,
{
    if 0 < n <= elems.len() {
        lower_list_diags(elems, n - 1, depth, table) + lower_diags(elems[n - 1], depth, table)
    } else {
        seq![]
    }
}

/// What lowering the field values `j..` of a structure literal reports.
pub open spec fn field_lower_diags(fields: Seq<(String, AstExpression)>, j: int, depth: int, table: Seq<(String, ProgramType)>) -> Seq<Diagnostic>
    decreases fields, fields.len() - j,
{
    if 0 <= j < fields.len() {
        lower_diags(fields[j].1, depth, table) + field_lower_diags(fields, j + 1, depth, table)
    } else {
        seq![]
    }
}

/// What lowering an expression reports: each form that has no lowering.
pub open spec fn lower_diags(e: AstExpression, depth: int, table: Seq<(String, ProgramType)>) -> Seq<Diagnostic>
    decreases e, 1nat,
{
    match e {
        AstExpression::NumberLiteral { .. } => seq![],
        AstExpression::StringLiteral { .. } => seq![],
        AstExpression::VariableLiteral { .. } => seq![],
        AstExpression::Binary { left, right, .. } => lower_diags(*left, depth, table) + lower_diags(*right, depth, table),
        AstExpression::Invoke { receiver, arguments, .. } => match *receiver {
            AstExpression::VariableLiteral { .. } => lower_list_diags(arguments@, arguments@.len() as int, depth, table),
            AstExpression::PathLiteral(_) => lower_list_diags(arguments@, arguments@.len() as int, depth, table),
            _ => seq![Diagnostic::UnsupportedConstruct { span: span_of(e) }],
        },
        AstExpression::StructureLiteral { fields, .. } => if allocation(e, table) is Some && 0 <= depth && depth + 2
            < usize::MAX {
            field_lower_diags(fields@, 0, depth + 1, table)
        } else {
            seq![Diagnostic::UnsupportedConstruct { span: span_of(e) }]
        },
        _ => seq![Diagnostic::UnsupportedConstruct { span: span_of(e) }],
    }
}

/// The operation is a value: no reference-count operation, no store and no control
/// transfer.
pub open spec fn is_value(q: QIRExpression) -> bool {
    !(q is Retain || q is Release || q is BranchIf || q is GotoBlock || q is StoreToPtr)
}

fn load_local(name: &String) -> (q: QIRExpression)
    ensures
        loads_local(q, name@),
        is_value(q),
{
    QIRExpression::LoadFromPtr {
        ptr: Box::new(QIRExpression::GetLocalPtr { local: QIRLocalVariable { name: name.clone() } }),
    }
}

fn load_temporary(index: usize) -> (q: QIRExpression)
    ensures
        loads_temporary(q, index as int),
        is_value(q),
{
    QIRExpression::LoadFromPtr { ptr: Box::new(QIRExpression::GetTemporaryPtr { index }) }
}

fn lower_arguments(
    args: &Vec<AstExpression>,
    depth: usize,
    table: &TypeInformation,
    diagnostics: &mut Vec<Diagnostic>,
) -> (r: Vec<QIRExpression>)
    ensures
        r@.len() == args@.len(),
        forall|j: int| 0 <= j < args@.len() ==> lowered_expr(#[trigger] args@[j], r@[j], depth as int, table.names@),
        final(diagnostics)@ == old(diagnostics)@ + lower_list_diags(args@, args@.len() as int, depth as int, table.names@),
    decreases args,
{
    let mut r: Vec<QIRExpression> = Vec::new();
    let mut i: usize = 0;
    while i < args.len()
        invariant
            i <= args@.len(),
            r@.len() == i,
            forall|j: int| 0 <= j < i ==> lowered_expr(#[trigger] args@[j], r@[j], depth as int, table.names@),
            diagnostics@ == old(diagnostics)@ + lower_list_diags(args@, i as int, depth as int, table.names@),
        decreases args@.len() - i,
    {
        let q = lower_value(&args[i], depth, table, diagnostics);
        r.push(q);
        proof {
            assert(old(diagnostics)@ + lower_list_diags(args@, i + 1, depth as int, table.names@) =~= old(diagnostics)@
                + lower_list_diags(args@, i as int, depth as int, table.names@) + lower_diags(
                args@[i as int],
                depth as int,
                table.names@,
            ));
        }
        i = i + 1;
    }
    r
}

/// Whether the type table declares every field that a structure literal names.
fn fields_declared(fields: &Vec<(String, AstExpression)>, declared: &Vec<(String, AstType)>) -> (r: bool)
    ensures
        r == forall|j: int| 0 <= j < fields@.len() ==> last_position(declared@, (#[trigger] fields@[j]).0@) >= 0,
{
    let mut i: usize = 0;
    while i < fields.len()
        invariant
            i <= fields@.len(),
            forall|j: int| 0 <= j < i ==> last_position(declared@, (#[trigger] fields@[j]).0@) >= 0,
        decreases fields@.len() - i,
    {
        if find_entry(declared, &fields[i].0).is_none() {
            return false;
        }
        i = i + 1;
    }
    true
}

/// Lowers an annotated expression to a value of the intermediate representation, using
/// scratch storage from index 0 on.
pub fn lower_expression(e: &AstExpression, table: &TypeInformation, diagnostics: &mut Vec<Diagnostic>) -> (q: QIRExpression)
    ensures
        lowered_expr(*e, q, 0, table.names@),
        is_value(q),
        final(diagnostics)@ == old(diagnostics)@ + lower_diags(*e, 0, table.names@),
{
    lower_value(e, 0, table, diagnostics)
}

/// Lowers an annotated expression, using scratch storage from index `depth` on.
fn lower_value(e: &AstExpression, depth: usize, table: &TypeInformation, diagnostics: &mut Vec<Diagnostic>) -> (q: QIRExpression)
    ensures
        lowered_expr(*e, q, depth as int, table.names@),
        is_value(q),
        final(diagnostics)@ == old(diagnostics)@ + lower_diags(*e, depth as int, table.names@),
    decreases *e,
{
    match e {
        AstExpression::NumberLiteral { content, .. } => {
            assert(diagnostics@ =~= old(diagnostics)@ + lower_diags(*e, depth as int, table.names@));
            QIRExpression::Constant { content: content.clone(), ty: lower_type(&e.get_type()) }
        },
        AstExpression::StringLiteral { content, .. } => {
            assert(diagnostics@ =~= old(diagnostics)@ + lower_diags(*e, depth as int, table.names@));
            QIRExpression::StringConstant { content: content.clone() }
        },
        AstExpression::VariableLiteral { content, .. } => {
            assert(diagnostics@ =~= old(diagnostics)@ + lower_diags(*e, depth as int, table.names@));
            load_local(content)
        },
        AstExpression::Binary { op, left, right, .. } => {
            let l = lower_value(left, depth, table, diagnostics);
            let r = lower_value(right, depth, table, diagnostics);
            let mut arguments: Vec<QIRExpression> = Vec::new();
            arguments.push(l);
            arguments.push(r);
            assert(diagnostics@ =~= old(diagnostics)@ + lower_diags(*e, depth as int, table.names@));
            QIRExpression::RuntimeCall {
                op: op.duplicate(),
                operand_type: lower_type(&left.get_type()),
                arguments,
                return_type: lower_type(&e.get_type()),
            }
        },
        AstExpression::Invoke { receiver, arguments, .. } => {
            let name = match &**receiver {
                AstExpression::VariableLiteral { content, token, .. } => Some(
                    PathData { name: content.clone(), token: token.duplicate() },
                ),
                AstExpression::PathLiteral(p) => Some(p.duplicate()),
                _ => None,
            };
            match name {
                Some(name) => {
                    let lowered = lower_arguments(arguments, depth, table, diagnostics);
                    QIRExpression::Invoke { name, arguments: lowered, return_type: lower_type(&e.get_type()) }
                },
                None => {
                    diagnostics.push(Diagnostic::UnsupportedConstruct { span: crate::annotate::expression_span(e) });
                    QIRExpression::Invalid
                },
            }
        },
        AstExpression::StructureLiteral { name, fields, .. } => {
            if depth < usize::MAX - 2 {
                if let Some(type_id) = table.position_of(&name.name) {
                    if let ProgramType::Structure { fields: declared, .. } = &table.names[type_id].1 {
                        if declared.len() <= usize::MAX - 2 && fields_declared(fields, declared) {
                            let layout = struct_layout(declared);
                            let mut operations: Vec<QIRExpression> = Vec::new();
                            operations.push(
                                QIRExpression::StoreToPtr {
                                    receiver: Box::new(QIRExpression::GetTemporaryPtr { index: depth }),
                                    output_type: QIRType::Ptr,
                                    new_value: Box::new(
                                        QIRExpression::InstantiateStructure { name: name.duplicate(), type_id, reference_count: 1 },
                                    ),
                                },
                            );
                            let ghost head = operations@;
                            let mut rest = field_stores(depth, fields, 0, declared, &layout, table, diagnostics);
                            let ghost tail = rest@;
                            operations.append(&mut rest);
                            proof {
                                assert(operations@.skip(1) =~= tail);
                                assert(diagnostics@ =~= old(diagnostics)@ + lower_diags(*e, depth as int, table.names@));
                            }
                            return QIRExpression::BuildStructure { operations: QIRBasicBlock { exprs: operations }, temporary: depth };
                        }
                    }
                }
            }
            diagnostics.push(Diagnostic::UnsupportedConstruct { span: crate::annotate::expression_span(e) });
            QIRExpression::Invalid
        },
        _ => {
            diagnostics.push(Diagnostic::UnsupportedConstruct { span: crate::annotate::expression_span(e) });
            QIRExpression::Invalid
        },
    }
}

/// The releases still owed on `name` by a block that has bound the locals `v`: one if it
/// is among them.
pub open spec fn pending_releases(v: Seq<String>, name: Seq<char>) -> int {
    if holds_name(v, name) {
        1
    } else {
        0
    }
}

/// `q` releases the object the local `name` points to.
pub open spec fn is_release_of(q: QIRExpression, name: Seq<char>) -> bool {
    q matches QIRExpression::Release { ptr } && loads_local(*ptr, name)
}

/// What a store writes; the operation itself for any other.
pub open spec fn stored_value(q: QIRExpression) -> QIRExpression {
    match q {
        QIRExpression::StoreToPtr { new_value, .. } => *new_value,
        _ => q,
    }
}

/// `q` stores a value of type `t` into the local `name`.
pub open spec fn stores_local(q: QIRExpression, name: Seq<char>, t: QIRType) -> bool {
    q matches QIRExpression::StoreToPtr { receiver, output_type, .. } && output_type == t && (*receiver matches QIRExpression::GetLocalPtr {
        local,
    } && local.name@ == name)
}

/// The physical type of a variable's slot.
pub open spec fn slot_type(ty: Option<AstType>) -> QIRType {
    match ty {
        Some(t) => ir_type(t@),
        None => QIRType::Invalid,
    }
}

/// `seg` is the lowering of `name = value;`. A value that is not a pointer is stored into
/// the local. A pointer is computed into scratch storage 0. If the local was bound
/// (`bound`), the pointer it holds is saved into scratch storage 1. The new pointer is
/// retained and, right after, stored into the local; then the saved pointer is released.
pub open spec fn assignment_ops(
    name: String,
    ty: Option<AstType>,
    value: AstExpression,
    table: Seq<(String, ProgramType)>,
    bound: bool,
    seg: Seq<QIRExpression>,
) -> bool {
    let t = slot_type(ty);
    if t != QIRType::Ptr {
        seg.len() == 1 && stores_local(seg[0], name@, t) && lowered_expr(value, stored_value(seg[0]), 0, table)
    } else {
        let k: int = if bound {
            1
        } else {
            0
        };
        &&& seg.len() == 3 + 2 * k
        &&& seg[0] matches QIRExpression::StoreToPtr { receiver, output_type, new_value } && is_temporary(*receiver, 0)
            && output_type == QIRType::Ptr && lowered_expr(value, *new_value, 1, table)
        &&& bound ==> (seg[1] matches QIRExpression::StoreToPtr { receiver, output_type, new_value } && is_temporary(
            *receiver,
            1,
        ) && output_type == QIRType::Ptr && loads_local(*new_value, name@))
        &&& seg[1 + k] matches QIRExpression::Retain { ptr } && loads_temporary(*ptr, 0)
        &&& stores_local(seg[2 + k], name@, QIRType::Ptr)
        &&& loads_temporary(stored_value(seg[2 + k]), 0)
        &&& bound ==> (seg[4] matches QIRExpression::Release { ptr } && loads_temporary(*ptr, 1))
    }
}

/// `ops` releases each local of `names`, in order.
pub open spec fn releases(names: Seq<String>, ops: Seq<QIRExpression>) -> bool {
    ops.len() == names.len() && forall|j: int| 0 <= j < names.len() ==> is_release_of(#[trigger] ops[j], names[j]@)
}

/// `ops` is the lowering of the statements `i..` of a block, with `outer` the locals bound
/// by enclosing blocks and `here` those this block bound before `i`. An expression
/// statement becomes its lowered value; an `if` a branch on the lowered condition whose
/// two blocks end by jumping to the continuation, which holds the statements after it; a
/// `while` a loop header holding such a branch, whose body ends by jumping back to the
/// header and whose other block leaves to the continuation. The locals a block bound are
/// released at its end.
pub open spec fn lowers_stmts(
    stmts: Seq<AstStatement>,
    i: int,
    outer: Seq<String>,
    here: Seq<String>,
    table: Seq<(String, ProgramType)>,
    ops: Seq<QIRExpression>,
) -> bool
    decreases stmts, stmts.len() - i,
{
    if i < 0 || i >= stmts.len() {
        releases(here, ops)
    } else {
        match stmts[i] {
            AstStatement::Comment(_) => lowers_stmts(stmts, i + 1, outer, here, table, ops),
            AstStatement::Expression(e) => ops.len() >= 1 && lowered_expr(e, ops[0], 0, table) && lowers_stmts(
                stmts,
                i + 1,
                outer,
                here,
                table,
                ops.skip(1),
            ),
            AstStatement::ModifyVariable { name, ty, value, .. } => {
                let bound = holds_name(outer, name@) || holds_name(here, name@);
                let here2 = if slot_type(ty) == QIRType::Ptr && !bound {
                    here.push(name)
                } else {
                    here
                };
                exists|k: int|
                    #![trigger ops.subrange(0, k)]
                    0 <= k <= ops.len() && assignment_ops(name, ty, value, table, bound, ops.subrange(0, k))
                        && lowers_stmts(stmts, i + 1, outer, here2, table, ops.skip(k))
            },
            AstStatement::IfStatement { cond, if_true, if_false } => {
                &&& ops.len() == 1
                &&& ops[0] matches QIRExpression::BranchIf { condition, if_true: t, if_false: f, continuation }
                    && lowered_expr(cond, *condition, 0, table) && t.exprs@.len() >= 1 && t.exprs@.last()
                    == QIRExpression::JumpToContinuation && lowers_stmts(
                    if_true.statements@,
                    0,
                    outer + here,
                    seq![],
                    table,
                    t.exprs@.drop_last(),
                ) && f.exprs@.len() >= 1 && f.exprs@.last() == QIRExpression::JumpToContinuation && lowers_stmts(
                    if_false.statements@,
                    0,
                    outer + here,
                    seq![],
                    table,
                    f.exprs@.drop_last(),
                ) && lowers_stmts(stmts, i + 1, outer, here, table, continuation.exprs@)
            },
            AstStatement::WhileStatement { cond, do_true } => {
                &&& ops.len() == 1
                &&& ops[0] matches QIRExpression::GotoBlock { block } && block.exprs@.len() == 1
                    && (block.exprs@[0] matches QIRExpression::BranchIf {
                    condition,
                    if_true: body,
                    if_false: exit,
                    continuation,
                } && lowered_expr(cond, *condition, 0, table) && body.exprs@.len() >= 1 && body.exprs@.last()
                    == QIRExpression::LoopBack && lowers_stmts(
                    do_true.statements@,
                    0,
                    outer + here,
                    seq![],
                    table,
                    body.exprs@.drop_last(),
                ) && exit.exprs@ == seq![QIRExpression::JumpToContinuation] && lowers_stmts(
                    stmts,
                    i + 1,
                    outer,
                    here,
                    table,
                    continuation.exprs@,
                ))
            },
        }
    }
}

/// What lowering the value of `name = value;` reports.
pub open spec fn assignment_diags(ty: Option<AstType>, value: AstExpression, table: Seq<(String, ProgramType)>) -> Seq<Diagnostic> {
    if slot_type(ty) == QIRType::Ptr {
        lower_diags(value, 1, table)
    } else {
        lower_diags(value, 0, table)
    }
}

/// What lowering the statements `i..` of a block reports, in the order they are lowered.
pub open spec fn stmts_lower_diags(stmts: Seq<AstStatement>, i: int, table: Seq<(String, ProgramType)>) -> Seq<Diagnostic>
    decreases stmts, stmts.len() - i,
{
    if i < 0 || i >= stmts.len() {
        seq![]
    } else {
        match stmts[i] {
            AstStatement::Comment(_) => stmts_lower_diags(stmts, i + 1, table),
            AstStatement::Expression(e) => lower_diags(e, 0, table) + stmts_lower_diags(stmts, i + 1, table),
            AstStatement::ModifyVariable { ty, value, .. } => assignment_diags(ty, value, table) + stmts_lower_diags(
                stmts,
                i + 1,
                table,
            ),
            AstStatement::IfStatement { cond, if_true, if_false } => lower_diags(cond, 0, table) + stmts_lower_diags(
                if_true.statements@,
                0,
                table,
            ) + stmts_lower_diags(if_false.statements@, 0, table) + stmts_lower_diags(stmts, i + 1, table),
            AstStatement::WhileStatement { cond, do_true } => lower_diags(cond, 0, table) + stmts_lower_diags(
                do_true.statements@,
                0,
                table,
            ) + stmts_lower_diags(stmts, i + 1, table),
        }
    }
}

/// Some entry of `v` is `name`.
pub open spec fn holds_name(v: Seq<String>, name: Seq<char>) -> bool {
    exists|j: int| 0 <= j < v.len() && (#[trigger] v[j])@ == name
}

/// No name occurs twice in `v`.
pub open spec fn distinct_names(v: Seq<String>) -> bool {
    forall|i: int, j: int| 0 <= i < j < v.len() ==> (#[trigger] v[i])@ != (#[trigger] v[j])@
}

fn contains_name(v: &Vec<String>, name: &String) -> (r: bool)
    ensures
        r == holds_name(v@, name@),
{
    let mut i: usize = 0;
    while i < v.len()
        invariant
            i <= v@.len(),
            forall|j: int| 0 <= j < i ==> (#[trigger] v@[j])@ != name@,
        decreases v@.len() - i,
    {
        if v[i] == *name {
            return true;
        }
        i = i + 1;
    }
    false
}

/// Releases the object the local `name` points to.
fn release_op(name: &String) -> (q: QIRExpression)
    ensures
        forall|p: Option<QIRExpression>, other: Seq<char>| #[trigger] ref_delta(p, q, other) == (if other == name@ {
            -1int
        } else {
            0int
        }),
        !(q is BranchIf || q is GotoBlock),
        is_release_of(q, name@),
        context_free(q),
{
    QIRExpression::Release { ptr: Box::new(load_local(name)) }
}

/// Stores the fields `j..` of a structure literal, in order, through scratch storage
/// `target`, each at the physical index of the declared field of its name. A pointer is
/// first computed into scratch storage `target + 1` and retained, then stored.
fn field_stores(
    target: usize,
    fields: &Vec<(String, AstExpression)>,
    j: usize,
    declared: &Vec<(String, AstType)>,
    layout: &Vec<QIRType>,
    table: &TypeInformation,
    diagnostics: &mut Vec<Diagnostic>,
) -> (seg: Vec<QIRExpression>)
    requires
        j <= fields@.len(),
        target + 2 < usize::MAX,
        declared@.len() <= usize::MAX - 2,
        is_layout(layout@, declared@),
        forall|jj: int| 0 <= jj < fields@.len() ==> last_position(declared@, (#[trigger] fields@[jj]).0@) >= 0,
    ensures
        field_ops(target as int, fields@, j as int, declared@, table.names@, seg@),
        neutral(seg@),
        seg@.len() > 0 ==> context_free(seg@[0]),
        final(diagnostics)@ == old(diagnostics)@ + field_lower_diags(fields@, j as int, target + 1, table.names@),
    decreases fields@, fields@.len() - j,
{
    let mut seg: Vec<QIRExpression> = Vec::new();
    let ghost s0 = seg@;
    proof {
        lemma_empty_neutral(s0);
    }
    if j == fields.len() {
        assert(diagnostics@ =~= old(diagnostics)@ + field_lower_diags(fields@, j as int, target + 1, table.names@));
        assert(neutral(seg@));
        return seg;
    }
    proof {
        lemma_last_position_bounds(declared@, fields@[j as int].0@);
    }
    let index = match find_entry(declared, &fields[j].0) {
        Some(k) => k + 2,
        None => 0,
    };
    let field_type = lower_type(&fields[j].1.get_type());
    let value = lower_value(&fields[j].1, target + 1, table, diagnostics);
    let field_ptr = QIRExpression::GetFieldPtr {
        receiver: Box::new(load_temporary(target)),
        ptr_type: struct_layout_copy(layout),
        output_type: field_type,
        field: index,
    };
    if field_type == QIRType::Ptr {
        push_op(
            &mut seg,
            QIRExpression::StoreToPtr {
                receiver: Box::new(QIRExpression::GetTemporaryPtr { index: target + 1 }),
                output_type: QIRType::Ptr,
                new_value: Box::new(value),
            },
        );
        let ghost s1 = seg@;
        push_op(&mut seg, QIRExpression::Retain { ptr: Box::new(load_temporary(target + 1)) });
        let ghost s2 = seg@;
        push_op(
            &mut seg,
            QIRExpression::StoreToPtr {
                receiver: Box::new(field_ptr),
                output_type: QIRType::Ptr,
                new_value: Box::new(load_temporary(target + 1)),
            },
        );
        proof {
            assert forall|x: Seq<char>| #[trigger] net_retains(seg@, x) == 0 && branches_balanced(seg@, x) by {
                assert(net_retains(s0, x) == 0 && branches_balanced(s0, x));
                assert(ref_delta(last_op(s0), s1[0], x) == 0);
                assert(net_retains(s1, x) == net_retains(s0, x) + ref_delta(last_op(s0), s1[0], x));
                assert(ref_delta(last_op(s1), s2[1], x) == 0);
                assert(net_retains(s2, x) == net_retains(s1, x) + ref_delta(last_op(s1), s2[1], x));
                assert(ref_delta(last_op(s2), seg@[2], x) == 0);
                assert(net_retains(seg@, x) == net_retains(s2, x) + ref_delta(last_op(s2), seg@[2], x));
            }
        }
    } else {
        push_op(
            &mut seg,
            QIRExpression::StoreToPtr { receiver: Box::new(field_ptr), output_type: field_type, new_value: Box::new(value) },
        );
        proof {
            assert forall|x: Seq<char>| #[trigger] net_retains(seg@, x) == 0 && branches_balanced(seg@, x) by {
                assert(net_retains(s0, x) == 0 && branches_balanced(s0, x));
                assert(ref_delta(last_op(s0), seg@[0], x) == 0);
                assert(net_retains(seg@, x) == net_retains(s0, x) + ref_delta(last_op(s0), seg@[0], x));
            }
        }
    }
    let ghost head = seg@;
    let mut rest = field_stores(target, fields, j + 1, declared, layout, table, diagnostics);
    let ghost tail = rest@;
    seg.append(&mut rest);
    proof {
        let n: int = if field_type == QIRType::Ptr {
            3
        } else {
            1
        };
        assert(head.len() == n);
        assert(seg@.skip(n) =~= tail);
        assert(seg@ == head + tail);
        assert(seg@[0] == head[0]);
        assert forall|x: Seq<char>| #[trigger] net_retains(seg@, x) == 0 && branches_balanced(seg@, x) by {
            lemma_net_retains_concat(head, tail, x);
            lemma_neutral_at(tail, x);
            assert(net_retains(head, x) == 0 && branches_balanced(head, x));
        }
        assert(neutral(seg@));
        assert(diagnostics@ =~= old(diagnostics)@ + field_lower_diags(fields@, j as int, target + 1, table.names@));
    }
    seg
}

fn struct_layout_copy(layout: &Vec<QIRType>) -> (r: Vec<QIRType>)
    ensures
        r@ == layout@,
{
    let mut r: Vec<QIRType> = Vec::new();
    let mut i: usize = 0;
    while i < layout.len()
        invariant
            i <= layout@.len(),
            r@ == layout@.subrange(0, i as int),
        decreases layout@.len() - i,
    {
        r.push(layout[i]);
        i = i + 1;
        assert(r@ =~= layout@.subrange(0, i as int));
    }
    assert(r@ =~= layout@);
    r
}

/// Releases, in order, each local of `names`.
fn release_all(names: &Vec<String>) -> (r: Vec<QIRExpression>)
    requires
        distinct_names(names@),
    ensures
        releases(names@, r@),
        owes_releases(r@, names@),
        r@.len() > 0 ==> context_free(r@[0]),
{
    let mut r: Vec<QIRExpression> = Vec::new();
    let mut i: usize = 0;
    while i < names.len()
        invariant
            i <= names@.len(),
            distinct_names(names@),
            r@.len() == i,
            forall|j: int| 0 <= j < i ==> is_release_of(#[trigger] r@[j], names@[j]@),
            r@.len() > 0 ==> context_free(r@[0]),
            forall|name: Seq<char>| (#[trigger] net_retains(r@, name)) == (if holds_name(names@.subrange(0, i as int), name) {
                -1int
            } else {
                0int
            }) && branches_balanced(r@, name),
        decreases names@.len() - i,
    {
        let ghost before = r@;
        let q = release_op(&names[i]);
        r.push(q);
        proof {
            assert forall|name: Seq<char>| (#[trigger] net_retains(r@, name)) == (if holds_name(names@.subrange(0, i + 1), name) {
                -1int
            } else {
                0int
            }) && branches_balanced(r@, name) by {
                assert(r@.drop_last() =~= before);
                assert(r@.last() == q);
                assert(ref_delta(last_op(before), q, name) == (if name == names@[i as int]@ { -1int } else { 0int }));
                assert(net_retains(r@, name) == net_retains(before, name) + ref_delta(last_op(before), q, name));
                assert(branches_balanced(r@, name) == branches_balanced(before, name));
                let prev = names@.subrange(0, i as int);
                let next = names@.subrange(0, i + 1);
                if name == names@[i as int]@ {
                    assert(next[i as int] == names@[i as int]);
                    if holds_name(prev, name) {
                        let j = choose|j: int| 0 <= j < prev.len() && (#[trigger] prev[j])@ == name;
                        assert(names@[j] == prev[j]);
                    }
                } else {
                    if holds_name(next, name) {
                        let j = choose|j: int| 0 <= j < next.len() && (#[trigger] next[j])@ == name;
                        assert(prev[j] == next[j]);
                    }
                    if holds_name(prev, name) {
                        let j = choose|j: int| 0 <= j < prev.len() && (#[trigger] prev[j])@ == name;
                        assert(prev[j] == next[j]);
                    }
                }
            }
        }
        i = i + 1;
    }
    assert(names@.subrange(0, names@.len() as int) =~= names@);
    assert forall|n: Seq<char>| (#[trigger] net_retains(r@, n)) == -pending_releases(names@, n) && branches_balanced(r@, n) by {
        assert(net_retains(r@, n) == (if holds_name(names@, n) { -1int } else { 0int }));
    }
    assert(owes_releases(r@, names@));
    r
}

/// Along every path through `ops`, retains and releases balance on every local but those
/// of `here`, each of which is released once more than it is retained.
pub open spec fn owes_releases(ops: Seq<QIRExpression>, here: Seq<String>) -> bool {
    forall|n: Seq<char>|
        #![trigger net_retains(ops, n)]
        #![trigger branches_balanced(ops, n)]
        net_retains(ops, n) == -pending_releases(here, n) && branches_balanced(ops, n)
}

/// Along every path through `ops`, retains and releases balance on every local but those
/// that `ops` binds for the first time (`after` but not `before`): each of those is
/// retained once more than it is released.
pub open spec fn releases_change(ops: Seq<QIRExpression>, before: Seq<String>, after: Seq<String>) -> bool {
    forall|n: Seq<char>|
        #![trigger net_retains(ops, n)]
        #![trigger branches_balanced(ops, n)]
        net_retains(ops, n) == pending_releases(after, n) - pending_releases(before, n) && branches_balanced(ops, n)
}

/// Along every path through `ops`, retains and releases balance on every local.
pub open spec fn neutral(ops: Seq<QIRExpression>) -> bool {
    forall|n: Seq<char>|
        #![trigger net_retains(ops, n)]
        #![trigger branches_balanced(ops, n)]
        net_retains(ops, n) == 0 && branches_balanced(ops, n)
}

proof fn lemma_neutral_at(ops: Seq<QIRExpression>, n: Seq<char>)
    requires
        neutral(ops),
    ensures
        net_retains(ops, n) == 0,
        branches_balanced(ops, n),
{
}

proof fn lemma_empty_neutral(ops: Seq<QIRExpression>)
    requires
        ops.len() == 0,
    ensures
        forall|n: Seq<char>| (#[trigger] net_retains(ops, n)) == 0 && branches_balanced(ops, n),
{
}

/// Appends an operation that is not a branch.
fn push_op(out: &mut Vec<QIRExpression>, q: QIRExpression)
    requires
        !(q is BranchIf || q is GotoBlock),
    ensures
        final(out)@ == old(out)@.push(q),
        forall|name: Seq<char>| (#[trigger] net_retains(final(out)@, name)) == net_retains(old(out)@, name) + ref_delta(last_op(old(out)@), q, name)
            && branches_balanced(final(out)@, name) == branches_balanced(old(out)@, name),
{
    out.push(q);
    proof {
        assert(out@.drop_last() =~= old(out)@);
    }
}

proof fn lemma_holds_push(v: Seq<String>, s: String, name: Seq<char>)
    ensures
        holds_name(v.push(s), name) == (holds_name(v, name) || s@ == name),
{
    if holds_name(v, name) {
        let j = choose|j: int| 0 <= j < v.len() && (#[trigger] v[j])@ == name;
        assert(v.push(s)[j] == v[j]);
    }
    if s@ == name {
        assert(v.push(s)[v.len() as int] == s);
    }
    if holds_name(v.push(s), name) && s@ != name {
        let j = choose|j: int| 0 <= j < v.push(s).len() && (#[trigger] v.push(s)[j])@ == name;
        assert(v[j] == v.push(s)[j]);
    }
}

fn copy_names(v: &Vec<String>, out: &mut Vec<String>)
    ensures
        final(out)@ == old(out)@ + v@,
{
    let mut i: usize = 0;
    while i < v.len()
        invariant
            i <= v@.len(),
            out@ == old(out)@ + v@.subrange(0, i as int),
        decreases v@.len() - i,
    {
        out.push(v[i].clone());
        i = i + 1;
        assert(out@ =~= old(out)@ + v@.subrange(0, i as int));
    }
    assert(v@.subrange(0, v@.len() as int) =~= v@);
}

/// Lowers the statements of a block from position `i` on. `outer` holds the locals bound
/// in enclosing blocks, `here` those this block has bound before position `i`.
///
/// Reference counts: a pointer bound to a local is retained just before the store that
/// binds it; the pointer the local held before is saved first and released right after
/// that store;
/// the locals a block binds first are released at its end. Along every path, and so through each
/// branch and each loop body, the retains and releases on each local then balance; what
/// is left unbalanced is one release for each local of `here`.
fn lower_statements(
    stmts: &Vec<AstStatement>,
    i: usize,
    table: &TypeInformation,
    outer: &Vec<String>,
    here: Vec<String>,
    diagnostics: &mut Vec<Diagnostic>,
) -> (r: Vec<QIRExpression>)
    requires
        i <= stmts@.len(),
        distinct_names(here@),
        forall|name: Seq<char>| #[trigger] holds_name(here@, name) ==> !holds_name(outer@, name),
    ensures
        lowers_stmts(stmts@, i as int, outer@, here@, table.names@, r@),
        final(diagnostics)@ == old(diagnostics)@ + stmts_lower_diags(stmts@, i as int, table.names@),
        owes_releases(r@, here@),
        r@.len() > 0 ==> context_free(r@[0]),
    decreases stmts@, stmts@.len() - i, 1nat,
{
    if i == stmts.len() {
        return release_all(&here);
    }
    let ghost h0 = here@;
    match &stmts[i] {
        AstStatement::Comment(_) => lower_statements(stmts, i + 1, table, outer, here, diagnostics),
        AstStatement::Expression(_) => lower_expression_statement(stmts, i, table, outer, here, diagnostics),
        AstStatement::ModifyVariable { .. } => lower_assignment_statement(stmts, i, table, outer, here, diagnostics),
        AstStatement::IfStatement { .. } => lower_if_statement(stmts, i, table, outer, here, diagnostics),
        AstStatement::WhileStatement { .. } => lower_while_statement(stmts, i, table, outer, here, diagnostics),
    }
}

/// `lower_statements` where statement `i` is an expression: its lowered value, then the rest.
fn lower_expression_statement(
    stmts: &Vec<AstStatement>,
    i: usize,
    table: &TypeInformation,
    outer: &Vec<String>,
    here: Vec<String>,
    diagnostics: &mut Vec<Diagnostic>,
) -> (r: Vec<QIRExpression>)
    requires
        i < stmts@.len(),
        stmts@[i as int] is Expression,
        distinct_names(here@),
        forall|name: Seq<char>| #[trigger] holds_name(here@, name) ==> !holds_name(outer@, name),
    ensures
        lowers_stmts(stmts@, i as int, outer@, here@, table.names@, r@),
        final(diagnostics)@ == old(diagnostics)@ + stmts_lower_diags(stmts@, i as int, table.names@),
        owes_releases(r@, here@),
        r@.len() > 0 ==> context_free(r@[0]),
    decreases stmts@, stmts@.len() - i, 0nat,
{
    let ghost h0 = here@;
    let count = stmts.len();
    assert(i + 1 <= count);
    match &stmts[i] {
        AstStatement::Expression(e) => {
            let q = lower_value(e, 0, table, diagnostics);
            let ghost qg = q;
            let mut out: Vec<QIRExpression> = Vec::new();
            push_op(&mut out, q);
            let mut rest = lower_statements(stmts, i + 1, table, outer, here, diagnostics);
            let ghost o1 = out@;
            let ghost r1 = rest@;
            out.append(&mut rest);
            proof {
                assert(out@[0] == qg);
                assert(out@.skip(1) =~= r1);
                assert forall|name: Seq<char>| (#[trigger] net_retains(out@, name)) == (if holds_name(h0, name) {
                    -1int
                } else {
                    0int
                }) && branches_balanced(out@, name) by {
                    lemma_net_retains_concat(o1, r1, name);
                    assert(net_retains(o1, name) == 0 + ref_delta(None, qg, name));
                }
                assert(owes_releases(out@, h0));
            }
            out
        },
        _ => {
            proof {
                assert(false);
            }
            Vec::new()
        },
    }
}

/// `lower_statements` where statement `i` is an assignment: its operations, then the rest.
fn lower_assignment_statement(
    stmts: &Vec<AstStatement>,
    i: usize,
    table: &TypeInformation,
    outer: &Vec<String>,
    here: Vec<String>,
    diagnostics: &mut Vec<Diagnostic>,
) -> (r: Vec<QIRExpression>)
    requires
        i < stmts@.len(),
        stmts@[i as int] is ModifyVariable,
        distinct_names(here@),
        forall|name: Seq<char>| #[trigger] holds_name(here@, name) ==> !holds_name(outer@, name),
    ensures
        lowers_stmts(stmts@, i as int, outer@, here@, table.names@, r@),
        final(diagnostics)@ == old(diagnostics)@ + stmts_lower_diags(stmts@, i as int, table.names@),
        owes_releases(r@, here@),
        r@.len() > 0 ==> context_free(r@[0]),
    decreases stmts@, stmts@.len() - i, 0nat,
{
    let ghost h0 = here@;
    let count = stmts.len();
    assert(i + 1 <= count);
    match &stmts[i] {
        AstStatement::ModifyVariable { name, ty, value, .. } => {
            let mut here2 = here;
            let mut out = lower_assignment(name, ty, value, table, outer, &mut here2, diagnostics);
            let ghost h2 = here2@;
            let mut rest = lower_statements(stmts, i + 1, table, outer, here2, diagnostics);
            let ghost o1 = out@;
            let ghost r1 = rest@;
            out.append(&mut rest);
            proof {
                let k = o1.len() as int;
                let bound = holds_name(outer@, name@) || holds_name(h0, name@);
                assert(out@.subrange(0, k) =~= o1);
                assert(out@.skip(k) =~= r1);
                assert(assignment_ops(*name, *ty, *value, table.names@, bound, out@.subrange(0, k)));
                let here2_spec = if slot_type(*ty) == QIRType::Ptr && !bound {
                    h0.push(*name)
                } else {
                    h0
                };
                assert(h2 == here2_spec);
                assert(lowers_stmts(stmts@, i + 1, outer@, here2_spec, table.names@, out@.skip(k)));
                assert(stmts@[i as int] matches AstStatement::ModifyVariable { name: n1, ty: t1, value: v1, .. } && n1 == *name && t1 == *ty && v1 == *value);
                assert(out@.subrange(0, k) == out@.subrange(0, k));
                assert(lowers_stmts(stmts@, i as int, outer@, h0, table.names@, out@));
                assert forall|n: Seq<char>| (#[trigger] net_retains(out@, n)) == (if holds_name(h0, n) {
                    -1int
                } else {
                    0int
                }) && branches_balanced(out@, n) by {
                    lemma_net_retains_concat(o1, r1, n);
                    assert(net_retains(o1, n) == pending_releases(h2, n) - pending_releases(h0, n) && branches_balanced(o1, n));
                }
                assert(owes_releases(out@, h0));
            }
            out
        },
        _ => {
            proof {
                assert(false);
            }
            Vec::new()
        },
    }
}

/// `lower_statements` where statement `i` is an `if`: a branch whose continuation holds
/// the rest.
fn lower_if_statement(
    stmts: &Vec<AstStatement>,
    i: usize,
    table: &TypeInformation,
    outer: &Vec<String>,
    here: Vec<String>,
    diagnostics: &mut Vec<Diagnostic>,
) -> (r: Vec<QIRExpression>)
    requires
        i < stmts@.len(),
        stmts@[i as int] is IfStatement,
        distinct_names(here@),
        forall|name: Seq<char>| #[trigger] holds_name(here@, name) ==> !holds_name(outer@, name),
    ensures
        lowers_stmts(stmts@, i as int, outer@, here@, table.names@, r@),
        final(diagnostics)@ == old(diagnostics)@ + stmts_lower_diags(stmts@, i as int, table.names@),
        owes_releases(r@, here@),
        r@.len() > 0 ==> context_free(r@[0]),
    decreases stmts@, stmts@.len() - i, 0nat,
{
    let ghost h0 = here@;
    let count = stmts.len();
    assert(i + 1 <= count);
    match &stmts[i] {
        AstStatement::IfStatement { cond, if_true, if_false } => {
            let c = lower_value(cond, 0, table, diagnostics);
            let mut enclosing: Vec<String> = Vec::new();
            copy_names(outer, &mut enclosing);
            copy_names(&here, &mut enclosing);
            proof {
                assert(enclosing@ =~= outer@ + here@);
            }
            let mut t = lower_statements(&if_true.statements, 0, table, &enclosing, Vec::new(), diagnostics);
            let ghost t0 = t@;
            push_op(&mut t, QIRExpression::JumpToContinuation);
            let mut f = lower_statements(&if_false.statements, 0, table, &enclosing, Vec::new(), diagnostics);
            let ghost f0 = f@;
            push_op(&mut f, QIRExpression::JumpToContinuation);
            proof {
                assert(t@.drop_last() =~= t0);
                assert(f@.drop_last() =~= f0);
            }
            let rest = lower_statements(stmts, i + 1, table, outer, here, diagnostics);
            let mut out: Vec<QIRExpression> = Vec::new();
            let branch = QIRExpression::BranchIf {
                condition: Box::new(c),
                if_true: QIRBasicBlock { exprs: t },
                if_false: QIRBasicBlock { exprs: f },
                continuation: QIRBasicBlock { exprs: rest },
            };
            let ghost tv = t@;
            let ghost fv = f@;
            let ghost rv = rest@;
            let ghost bg = branch;
            out.push(branch);
            proof {
                assert(out@.drop_last() =~= Seq::<QIRExpression>::empty());
                assert(out@.last() == bg);
                assert forall|n: Seq<char>| (#[trigger] net_retains(out@, n)) == (if holds_name(h0, n) {
                    -1int
                } else {
                    0int
                }) && branches_balanced(out@, n) by {
                    assert(!holds_name(Seq::<String>::empty(), n));
                    assert(net_retains(tv, n) == 0);
                    assert(net_retains(fv, n) == 0);
                    assert(net_retains(out@.drop_last(), n) == 0);
                    assert(branches_balanced(out@.drop_last(), n));
                    assert(net_retains(out@, n) == net_retains(rv, n));
                }
                assert(owes_releases(out@, h0));
            }
            out
        },
        _ => {
            proof {
                assert(false);
            }
            Vec::new()
        },
    }
}

/// `lower_statements` where statement `i` is a `while`: a loop header holding a branch
/// whose continuation holds the rest.
fn lower_while_statement(
    stmts: &Vec<AstStatement>,
    i: usize,
    table: &TypeInformation,
    outer: &Vec<String>,
    here: Vec<String>,
    diagnostics: &mut Vec<Diagnostic>,
) -> (r: Vec<QIRExpression>)
    requires
        i < stmts@.len(),
        stmts@[i as int] is WhileStatement,
        distinct_names(here@),
        forall|name: Seq<char>| #[trigger] holds_name(here@, name) ==> !holds_name(outer@, name),
    ensures
        lowers_stmts(stmts@, i as int, outer@, here@, table.names@, r@),
        final(diagnostics)@ == old(diagnostics)@ + stmts_lower_diags(stmts@, i as int, table.names@),
        owes_releases(r@, here@),
        r@.len() > 0 ==> context_free(r@[0]),
    decreases stmts@, stmts@.len() - i, 0nat,
{
    let ghost h0 = here@;
    let count = stmts.len();
    assert(i + 1 <= count);
    match &stmts[i] {
        AstStatement::WhileStatement { cond, do_true } => {
            let c = lower_value(cond, 0, table, diagnostics);
            let mut enclosing: Vec<String> = Vec::new();
            copy_names(outer, &mut enclosing);
            copy_names(&here, &mut enclosing);
            proof {
                assert(enclosing@ =~= outer@ + here@);
            }
            let mut body = lower_statements(&do_true.statements, 0, table, &enclosing, Vec::new(), diagnostics);
            let ghost b0 = body@;
            push_op(&mut body, QIRExpression::LoopBack);
            proof {
                assert(body@.drop_last() =~= b0);
            }
            let mut exit: Vec<QIRExpression> = Vec::new();
            push_op(&mut exit, QIRExpression::JumpToContinuation);
            proof {
                assert(exit@ =~= seq![QIRExpression::JumpToContinuation]);
            }
            let rest = lower_statements(stmts, i + 1, table, outer, here, diagnostics);
            let ghost bv = body@;
            let ghost ev = exit@;
            let ghost rv = rest@;
            let mut header: Vec<QIRExpression> = Vec::new();
            header.push(
                QIRExpression::BranchIf {
                    condition: Box::new(c),
                    if_true: QIRBasicBlock { exprs: body },
                    if_false: QIRBasicBlock { exprs: exit },
                    continuation: QIRBasicBlock { exprs: rest },
                },
            );
            let ghost hv = header@;
            let mut out: Vec<QIRExpression> = Vec::new();
            out.push(QIRExpression::GotoBlock { block: QIRBasicBlock { exprs: header } });
            assert(out@.last() == QIRExpression::GotoBlock { block: QIRBasicBlock { exprs: header } });
            proof {
                assert(out@.drop_last() =~= Seq::<QIRExpression>::empty());
                assert(header@.drop_last() =~= Seq::<QIRExpression>::empty());
                assert forall|n: Seq<char>| (#[trigger] net_retains(out@, n)) == (if holds_name(h0, n) {
                    -1int
                } else {
                    0int
                }) && branches_balanced(out@, n) by {
                    assert(!holds_name(Seq::<String>::empty(), n));
                    assert(net_retains(bv, n) == 0);
                    assert(net_retains(ev, n) == 0);
                    assert(net_retains(header@.drop_last(), n) == 0);
                    assert(branches_balanced(header@.drop_last(), n));
                    assert(net_retains(out@.drop_last(), n) == 0);
                    assert(branches_balanced(out@.drop_last(), n));
                    assert(net_retains(header@, n) == net_retains(rv, n));
                    assert(net_retains(out@, n) == net_retains(header@, n));
                    assert(branches_balanced(bv, n));
                    assert(branches_balanced(ev, n));
                    assert(branches_balanced(rv, n));
                    assert(branches_balanced(header@, n));
                    assert(branches_balanced(out@, n));
                }
                assert(owes_releases(out@, h0));
            }
            out
        },
        _ => {
            proof {
                assert(false);
            }
            Vec::new()
        },
    }
}

/// The operations of `name = value;`, as `assignment_ops` says; records in `here2` a
/// pointer-typed local that no enclosing block and no earlier statement bound.
fn lower_assignment(
    name: &String,
    ty: &Option<AstType>,
    value: &AstExpression,
    table: &TypeInformation,
    outer: &Vec<String>,
    here2: &mut Vec<String>,
    diagnostics: &mut Vec<Diagnostic>,
) -> (out: Vec<QIRExpression>)
    requires
        distinct_names(old(here2)@),
        forall|n: Seq<char>| #[trigger] holds_name(old(here2)@, n) ==> !holds_name(outer@, n),
    ensures
        ({
            let bound = holds_name(outer@, name@) || holds_name(old(here2)@, name@);
            &&& assignment_ops(*name, *ty, *value, table.names@, bound, out@)
            &&& final(here2)@ == if slot_type(*ty) == QIRType::Ptr && !bound {
                old(here2)@.push(*name)
            } else {
                old(here2)@
            }
        }),
        distinct_names(final(here2)@),
        forall|n: Seq<char>| #[trigger] holds_name(final(here2)@, n) ==> !holds_name(outer@, n),
        releases_change(out@, old(here2)@, final(here2)@),
        final(diagnostics)@ == old(diagnostics)@ + assignment_diags(*ty, *value, table.names@),
{
    let ghost h0 = here2@;
    let var_type = match ty {
        Some(t) => lower_type(t),
        None => QIRType::Invalid,
    };
    let mut out: Vec<QIRExpression> = Vec::new();
    let ghost e0 = out@;
    proof {
        lemma_empty_neutral(e0);
    }
    if var_type == QIRType::Ptr {
        let in_outer = contains_name(outer, name);
        let in_here = contains_name(here2, name);
        let ghost bound = in_outer || in_here;
        let v = lower_value(value, 1, table, diagnostics);
        push_op(
            &mut out,
            QIRExpression::StoreToPtr {
                receiver: Box::new(QIRExpression::GetTemporaryPtr { index: 0 }),
                output_type: QIRType::Ptr,
                new_value: Box::new(v),
            },
        );
        let ghost o1 = out@;
        if in_outer || in_here {
            push_op(
                &mut out,
                QIRExpression::StoreToPtr {
                    receiver: Box::new(QIRExpression::GetTemporaryPtr { index: 1 }),
                    output_type: QIRType::Ptr,
                    new_value: Box::new(load_local(name)),
                },
            );
        }
        let ghost o2 = out@;
        push_op(&mut out, QIRExpression::Retain { ptr: Box::new(load_temporary(0)) });
        let ghost o3 = out@;
        let store = QIRExpression::StoreToPtr {
            receiver: Box::new(QIRExpression::GetLocalPtr { local: QIRLocalVariable { name: name.clone() } }),
            output_type: QIRType::Ptr,
            new_value: Box::new(load_temporary(0)),
        };
        let ghost sg = store;
        push_op(&mut out, store);
        let ghost o4 = out@;
        if in_outer || in_here {
            push_op(&mut out, QIRExpression::Release { ptr: Box::new(load_temporary(1)) });
        }
        if !(in_outer || in_here) {
            proof {
                assert forall|i1: int, j1: int| 0 <= i1 < j1 < here2@.push(*name).len() implies
                    (#[trigger] here2@.push(*name)[i1])@ != (#[trigger] here2@.push(*name)[j1])@ by {
                    if j1 == h0.len() {
                        assert(here2@.push(*name)[i1] == h0[i1]);
                    }
                }
            }
            here2.push(name.clone());
        }
        proof {
            assert forall|n: Seq<char>| #[trigger] holds_name(here2@, n) ==> !holds_name(outer@, n) by {
                lemma_holds_push(h0, *name, n);
            }
            assert forall|n: Seq<char>|
                #[trigger] net_retains(out@, n) == pending_releases(here2@, n) - pending_releases(h0, n)
                    && branches_balanced(out@, n) by {
                lemma_holds_push(h0, *name, n);
                assert(net_retains(e0, n) == 0 && branches_balanced(e0, n));
                assert(net_retains(o1, n) == net_retains(e0, n) + ref_delta(last_op(e0), o1[0], n));
                assert(ref_delta(last_op(e0), o1[0], n) == 0);
                if bound {
                    assert(net_retains(o2, n) == net_retains(o1, n) + ref_delta(last_op(o1), o2[1], n));
                    assert(ref_delta(last_op(o1), o2[1], n) == 0);
                } else {
                    assert(o2 == o1);
                }
                assert(net_retains(o3, n) == net_retains(o2, n) + ref_delta(last_op(o2), o3.last(), n));
                assert(ref_delta(last_op(o2), o3.last(), n) == 0);
                assert(last_op(o3) == Some(o3.last()));
                assert(ref_delta(last_op(o3), sg, n) == (if n == name@ { 1int } else { 0int }));
                assert(net_retains(o4, n) == net_retains(o3, n) + ref_delta(last_op(o3), sg, n));
                if bound {
                    assert(last_op(o4) == Some(sg));
                    assert(binds_local(sg, name@));
                    assert(ref_delta(last_op(o4), out@.last(), n) == (if n == name@ { -1int } else { 0int }));
                    assert(net_retains(out@, n) == net_retains(o4, n) + ref_delta(last_op(o4), out@.last(), n));
                    assert(branches_balanced(out@, n) == branches_balanced(o4, n));
                } else {
                    assert(out@ == o4);
                }
            }
            assert(releases_change(out@, h0, here2@));
            let k: int = if bound {
                1
            } else {
                0
            };
            assert(out@.len() == 3 + 2 * k);
            assert(out@[0] == o1[0]);
            if bound {
                assert(out@[1] == o2[1]);
            }
            assert(out@[1 + k] == o3.last());
            assert(out@[2 + k] == sg);
            assert(context_free(out@[0]));
        }
    } else {
        let v = lower_value(value, 0, table, diagnostics);
        let store = QIRExpression::StoreToPtr {
            receiver: Box::new(QIRExpression::GetLocalPtr { local: QIRLocalVariable { name: name.clone() } }),
            output_type: var_type,
            new_value: Box::new(v),
        };
        let ghost sg = store;
        push_op(&mut out, store);
        proof {
            assert forall|n: Seq<char>| #[trigger] net_retains(out@, n) == pending_releases(here2@, n) - pending_releases(h0, n)
                && branches_balanced(out@, n) by {
                assert(ref_delta(last_op(e0), sg, n) == 0);
                assert(net_retains(e0, n) == 0 && branches_balanced(e0, n));
                assert(net_retains(out@, n) == net_retains(e0, n) + ref_delta(last_op(e0), sg, n));
            }
            assert(here2@ == h0);
            assert(releases_change(out@, h0, here2@));
        }
    }
    out
}

/// The parameters of a lowered function: each declared `(type, name)` becomes a local of
/// that name with the type's physical type.
pub open spec fn lowered_parameters(lowered: Seq<(QIRLocalVariable, QIRType)>, declared: Seq<(AstType, String)>) -> bool {
    lowered.len() == declared.len() && forall|i: int|
        0 <= i < declared.len() ==> (#[trigger] lowered[i]).0.name == declared[i].1 && lowered[i].1 == ir_type(
            declared[i].0@,
        )
}

/// The names of a function's parameters, in order.
pub open spec fn parameter_names(parameters: Seq<(AstType, String)>) -> Seq<String> {
    parameters.map_values(|p: (AstType, String)| p.1)
}

fn lower_parameters(parameters: &Vec<(AstType, String)>, names: &mut Vec<String>) -> (r: Vec<(QIRLocalVariable, QIRType)>)
    ensures
        lowered_parameters(r@, parameters@),
        final(names)@ == old(names)@ + parameter_names(parameters@),
{
    let mut r: Vec<(QIRLocalVariable, QIRType)> = Vec::new();
    let mut i: usize = 0;
    assert(parameter_names(parameters@.subrange(0, 0)) =~= Seq::<String>::empty());
    assert(names@ =~= old(names)@ + parameter_names(parameters@.subrange(0, 0)));
    while i < parameters.len()
        invariant
            i <= parameters@.len(),
            lowered_parameters(r@, parameters@.subrange(0, i as int)),
            names@ == old(names)@ + parameter_names(parameters@.subrange(0, i as int)),
        decreases parameters@.len() - i,
    {
        names.push(parameters[i].1.clone());
        r.push((QIRLocalVariable { name: parameters[i].1.clone() }, lower_type(&parameters[i].0)));
        i = i + 1;
        assert(parameter_names(parameters@.subrange(0, i as int)) =~= parameter_names(parameters@.subrange(0, i - 1)).push(
            parameters@[i - 1].1,
        ));
        assert(names@ =~= old(names)@ + parameter_names(parameters@.subrange(0, i as int)));
        assert forall|k: int| 0 <= k < i implies (#[trigger] r@[k]).0.name == parameters@.subrange(0, i as int)[k].1
            && r@[k].1 == ir_type(parameters@.subrange(0, i as int)[k].0@) by {
            if k < i - 1 {
                assert(parameters@.subrange(0, i as int)[k] == parameters@.subrange(0, i - 1)[k]);
            }
        }
    }
    assert(parameters@.subrange(0, parameters@.len() as int) =~= parameters@);
    r
}

/// `r` is the lowering of the declaration `h`: none for an import; for a structure, its
/// layout; for a function, its lowered parameters and return type, and its body lowered
/// as `lowers_stmts` says, with the parameters bound outside it, so that the body's
/// reference counts balance on every path.
pub open spec fn lowered_header(h: AstHeader, table: Seq<(String, ProgramType)>, r: Option<QIRHeader>) -> bool {
    match h {
        AstHeader::Import(_) => r is None,
        AstHeader::Struct { name, fields } => r matches Some(QIRHeader::Struct { name: n, fields: f }) && n == name
            && is_layout(f@, fields@),
        AstHeader::Function { name, parameters, return_type, code_block: body } => r matches Some(QIRHeader::Function {
            name: n,
            parameters: p,
            return_type: t,
            code_block,
        }) && n == name && lowered_parameters(p@, parameters@) && t == ir_type(return_type@) && lowers_stmts(
            body.statements@,
            0,
            parameter_names(parameters@),
            seq![],
            table,
            code_block.exprs@,
        ) && refcounts_balanced(code_block.exprs@),
    }
}

impl AstHeader {
    /// Lowers this annotated declaration.
    pub fn lower(&self, table: &TypeInformation, diagnostics: &mut Vec<Diagnostic>) -> (r: Option<QIRHeader>)
        requires
            match *self {
                AstHeader::Struct { fields, .. } => fields@.len() + 2 <= usize::MAX,
                _ => true,
            },
        ensures
            lowered_header(*self, table.names@, r),
            final(diagnostics)@ == old(diagnostics)@ + header_lower_diags(*self, table.names@),
    {
        match self {
            AstHeader::Import(_) => {
                assert(diagnostics@ =~= old(diagnostics)@ + header_lower_diags(*self, table.names@));
                None
            },
            AstHeader::Struct { name, fields } => {
                assert(diagnostics@ =~= old(diagnostics)@ + header_lower_diags(*self, table.names@));
                Some(QIRHeader::Struct { name: name.duplicate(), fields: struct_layout(fields) })
            },
            AstHeader::Function { name, parameters, return_type, code_block } => {
                let mut names: Vec<String> = Vec::new();
                let lowered = lower_parameters(parameters, &mut names);
                assert(names@ =~= parameter_names(parameters@));
                let body = lower_statements(&code_block.statements, 0, table, &names, Vec::new(), diagnostics);
                proof {
                    assert forall|n: Seq<char>| (#[trigger] net_retains(body@, n)) == 0 && branches_balanced(body@, n) by {
                        assert(!holds_name(Seq::<String>::empty(), n));
                    }
                    assert(refcounts_balanced(body@));
                }
                Some(
                    QIRHeader::Function {
                        name: name.duplicate(),
                        parameters: lowered,
                        return_type: lower_type(return_type),
                        code_block: QIRBasicBlock { exprs: body },
                    },
                )
            },
        }
    }
}

/// What lowering a declaration reports: the diagnostics of a function's body.
pub open spec fn header_lower_diags(h: AstHeader, table: Seq<(String, ProgramType)>) -> Seq<Diagnostic> {
    match h {
        AstHeader::Function { code_block, .. } => stmts_lower_diags(code_block.statements@, 0, table),
        _ => seq![],
    }
}

/// What lowering the first `n` declarations reports.
pub open spec fn program_lower_diags(headers: Seq<AstHeader>, n: int, table: Seq<(String, ProgramType)>) -> Seq<Diagnostic>
    decreases n,
{
    if 0 < n <= headers.len() {
        program_lower_diags(headers, n - 1, table) + header_lower_diags(headers[n - 1], table)
    } else {
        seq![]
    }
}

/// `r` holds the lowerings of the first `n` declarations, one for each that is not an
/// import, in order.
pub open spec fn lowered_all(headers: Seq<AstHeader>, n: int, table: Seq<(String, ProgramType)>, r: Seq<QIRHeader>) -> bool
    decreases n,
{
    if n <= 0 || n > headers.len() {
        r.len() == 0
    } else if headers[n - 1] is Import {
        lowered_all(headers, n - 1, table, r)
    } else {
        r.len() >= 1 && lowered_header(headers[n - 1], table, Some(r.last())) && lowered_all(
            headers,
            n - 1,
            table,
            r.drop_last(),
        )
    }
}

/// Some declaration of `headers` lowers to `q`.
pub open spec fn lowered_from(headers: Seq<AstHeader>, table: Seq<(String, ProgramType)>, q: QIRHeader) -> bool {
    exists|j: int| 0 <= j < headers.len() && #[trigger] lowered_header(headers[j], table, Some(q))
}

/// Some declaration of `r` is the lowering of `h`.
pub open spec fn lowered_into(r: Seq<QIRHeader>, table: Seq<(String, ProgramType)>, h: AstHeader) -> bool {
    exists|k: int| 0 <= k < r.len() && lowered_header(h, table, Some(#[trigger] r[k]))
}

/// Lowers each declaration of an annotated program, in order; imports yield nothing.
pub fn lower_program(headers: &Vec<AstHeader>, table: &TypeInformation, diagnostics: &mut Vec<Diagnostic>) -> (r: Vec<QIRHeader>)
    requires
        forall|j: int| 0 <= j < headers@.len() ==> match #[trigger] headers@[j] {
            AstHeader::Struct { fields, .. } => fields@.len() + 2 <= usize::MAX,
            _ => true,
        },
    ensures
        lowered_all(headers@, headers@.len() as int, table.names@, r@),
        forall|k: int| 0 <= k < r@.len() ==> lowered_from(headers@, table.names@, #[trigger] r@[k]),
        forall|j: int|
            0 <= j < headers@.len() && !(#[trigger] headers@[j] is Import) ==> lowered_into(r@, table.names@, headers@[j]),
        final(diagnostics)@ == old(diagnostics)@ + program_lower_diags(headers@, headers@.len() as int, table.names@),
{
    let mut r: Vec<QIRHeader> = Vec::new();
    let mut i: usize = 0;
    while i < headers.len()
        invariant
            i <= headers@.len(),
            forall|j: int| 0 <= j < headers@.len() ==> match #[trigger] headers@[j] {
                AstHeader::Struct { fields, .. } => fields@.len() + 2 <= usize::MAX,
                _ => true,
            },
            forall|k: int| 0 <= k < r@.len() ==> lowered_from(headers@, table.names@, #[trigger] r@[k]),
            forall|j: int|
                0 <= j < i && !(#[trigger] headers@[j] is Import) ==> lowered_into(r@, table.names@, headers@[j]),
            diagnostics@ == old(diagnostics)@ + program_lower_diags(headers@, i as int, table.names@),
            lowered_all(headers@, i as int, table.names@, r@),
        decreases headers@.len() - i,
    {
        let ghost before = r@;
        let h = headers[i].lower(table, diagnostics);
        proof {
            assert(old(diagnostics)@ + program_lower_diags(headers@, i + 1, table.names@) =~= old(diagnostics)@
                + program_lower_diags(headers@, i as int, table.names@) + header_lower_diags(headers@[i as int], table.names@));
        }
        if let Some(q) = h {
            r.push(q);
            proof {
                assert(r@.drop_last() =~= before);
                assert(lowered_header(headers@[i as int], table.names@, Some(r@[r@.len() - 1])));
                assert forall|k: int| 0 <= k < r@.len() implies lowered_from(headers@, table.names@, #[trigger] r@[k]) by {
                    if k < before.len() {
                        assert(r@[k] == before[k]);
                    }
                }
                assert forall|j: int| 0 <= j <= i && !(#[trigger] headers@[j] is Import) implies lowered_into(
                    r@,
                    table.names@,
                    headers@[j],
                ) by {
                    if j < i {
                        let k0 = choose|k: int|
                            0 <= k < before.len() && lowered_header(headers@[j], table.names@, Some(#[trigger] before[k]));
                        assert(r@[k0] == before[k0]);
                    } else {
                        assert(lowered_header(headers@[j], table.names@, Some(r@[before.len() as int])));
                    }
                }
            }
        }
        i = i + 1;
    }
    r
}

/// Runs the whole core on a program: gathers the type table, annotates every function,
/// and lowers every declaration, under the type table that gathering built. Returns the
/// declarations of the intermediate representation and the diagnostics; the run
/// succeeded only if there are none.
pub fn compile(headers: &mut Vec<AstHeader>) -> (r: (Vec<QIRHeader>, Vec<Diagnostic>))
    requires
        forall|j: int| 0 <= j < old(headers)@.len() ==> match #[trigger] old(headers)@[j] {
            AstHeader::Struct { fields, .. } => fields@.len() + 2 <= usize::MAX,
            _ => true,
        },
    ensures
        final(headers)@.len() == old(headers)@.len(),
        exists|table: TypeInformation|
            {
                &&& table.wf()
                &&& gathered(old(headers)@, old(headers)@.len() as int, table.names@)
                &&& forall|i: int| 0 <= i < table.names@.len() ==> registered_by(old(headers)@, #[trigger] table.names@[i])
                &&& forall|j: int| 0 <= j < old(headers)@.len() && (#[trigger] declared_name(old(headers)@[j])) is Some
                    ==> lookup(table.names@, declared_name(old(headers)@[j])->0.name@) is Some
                &&& lowered_all(final(headers)@, final(headers)@.len() as int, table.names@, r.0@)
                &&& forall|j: int|
                    0 <= j < old(headers)@.len() ==> header_annotated(
                        #[trigger] old(headers)@[j],
                        final(headers)@[j],
                        table.names@,
                    )
                &&& forall|k: int| 0 <= k < r.0@.len() ==> lowered_from(final(headers)@, table.names@, #[trigger] r.0@[k])
                &&& forall|j: int|
                    0 <= j < final(headers)@.len() && !(#[trigger] final(headers)@[j] is Import) ==> lowered_into(
                        r.0@,
                        table.names@,
                        final(headers)@[j],
                    )
                &&& r.1@ == gather_diags(old(headers)@, old(headers)@.len() as int) + program_diags(
                    old(headers)@,
                    old(headers)@.len() as int,
                    table.names@,
                ) + program_lower_diags(final(headers)@, final(headers)@.len() as int, table.names@)
            },
{
    let mut diagnostics: Vec<Diagnostic> = Vec::new();
    let table = gather_all(headers, &mut diagnostics);
    annotate_program(headers, &table, &mut diagnostics);
    proof {
        assert forall|j: int| 0 <= j < headers@.len() implies match #[trigger] headers@[j] {
            AstHeader::Struct { fields, .. } => fields@.len() + 2 <= usize::MAX,
            _ => true,
        } by {
            assert(header_annotated(old(headers)@[j], headers@[j], table.names@));
        }
    }
    let lowered = lower_program(headers, &table, &mut diagnostics);
    assert(diagnostics@ =~= gather_diags(old(headers)@, old(headers)@.len() as int) + program_diags(
        old(headers)@,
        old(headers)@.len() as int,
        table.names@,
    ) + program_lower_diags(headers@, headers@.len() as int, table.names@));
    (lowered, diagnostics)
}

/// A structure declaration with `N` fields lowers to a structure with `N + 2` fields: two
/// 32-bit header fields, then at index `i >= 2` the physical type of declared field
/// `i - 2`.
pub proof fn lemma_structure_layout(h: AstHeader, table: Seq<(String, ProgramType)>, r: QIRHeader)
    requires
        h is Struct,
        lowered_header(h, table, Some(r)),
    ensures
        match (h, r) {
            (AstHeader::Struct { fields, .. }, QIRHeader::Struct { fields: lowered, .. }) => {
                &&& lowered@.len() == fields@.len() + 2
                &&& lowered@[0] == QIRType::Int32 && lowered@[1] == QIRType::Int32
                &&& forall|i: int| 2 <= i < lowered@.len() ==> #[trigger] lowered@[i] == ir_type(fields@[i - 2].1@)
            },
            _ => false,
        },
{
}

/// The stores that `field_ops` describes for fields that are not pointers: one per
/// field, in order, each at the declared position of the field's name + 2.
proof fn lemma_plain_field_ops(
    target: int,
    fields: Seq<(String, AstExpression)>,
    j: int,
    declared: Seq<(String, AstType)>,
    table: Seq<(String, ProgramType)>,
    seg: Seq<QIRExpression>,
)
    requires
        0 <= j <= fields.len(),
        field_ops(target, fields, j, declared, table, seg),
        forall|k: int| 0 <= k < fields.len() ==> lowered_type((#[trigger] fields[k]).1) != QIRType::Ptr,
    ensures
        seg.len() == fields.len() - j,
        forall|k: int|
            0 <= k < seg.len() ==> (#[trigger] seg[k] matches QIRExpression::StoreToPtr { receiver, .. }
                && (*receiver matches QIRExpression::GetFieldPtr { field, .. } && field == last_position(
                declared,
                fields[j + k].0@,
            ) + 2)),
    decreases fields.len() - j,
{
    if j < fields.len() {
        lemma_plain_field_ops(target, fields, j + 1, declared, table, seg.skip(1));
        assert forall|k: int| 0 <= k < seg.len() implies (#[trigger] seg[k] matches QIRExpression::StoreToPtr {
            receiver,
            ..
        } && (*receiver matches QIRExpression::GetFieldPtr { field, .. } && field == last_position(
            declared,
            fields[j + k].0@,
        ) + 2)) by {
            if k > 0 {
                assert(seg[k] == seg.skip(1)[k - 1]);
            }
        }
    }
}

/// A structure literal whose fields are not pointers lowers to one allocation, holding
/// the structure's type identifier and a reference count of 1, followed by one store per
/// field in the literal's order, each at the declared position of its name + 2.
pub proof fn lemma_structure_literal(e: AstExpression, q: QIRExpression, table: Seq<(String, ProgramType)>)
    requires
        lowered_expr(e, q, 0, table),
        allocation(e, table) is Some,
        e matches AstExpression::StructureLiteral { fields, .. } && forall|k: int|
            0 <= k < fields@.len() ==> lowered_type((#[trigger] fields@[k]).1) != QIRType::Ptr,
    ensures
        match (e, allocation(e, table)) {
            (AstExpression::StructureLiteral { name, fields, .. }, Some((declared, type_id))) => {
                &&& q matches QIRExpression::BuildStructure { operations, temporary } && temporary == 0
                &&& q->operations.exprs@.len() == fields@.len() + 1
                &&& stored_value(q->operations.exprs@[0]) == (QIRExpression::InstantiateStructure {
                    name,
                    type_id: type_id as usize,
                    reference_count: 1,
                })
                &&& forall|k: int|
                    1 <= k < q->operations.exprs@.len() ==> (#[trigger] q->operations.exprs@[k] matches QIRExpression::StoreToPtr {
                        receiver,
                        ..
                    } && (*receiver matches QIRExpression::GetFieldPtr { field, .. } && field == last_position(
                        declared,
                        fields@[k - 1].0@,
                    ) + 2))
            },
            _ => false,
        },
{
    if let AstExpression::StructureLiteral { name, fields, .. } = e {
        if let Some((declared, type_id)) = allocation(e, table) {
            let ops = q->operations.exprs@;
            lemma_plain_field_ops(0, fields@, 0, declared, table, ops.skip(1));
            assert forall|k: int| 1 <= k < ops.len() implies (#[trigger] ops[k] matches QIRExpression::StoreToPtr {
                receiver,
                ..
            } && (*receiver matches QIRExpression::GetFieldPtr { field, .. } && field == last_position(
                declared,
                fields@[k - 1].0@,
            ) + 2)) by {
                assert(ops[k] == ops.skip(1)[k - 1]);
            }
        }
    }
}

} // verus!
