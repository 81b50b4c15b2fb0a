use vstd::prelude::*;

use crate::ast::{BinaryOp, PathData, TypeModel};

verus! {

/// A declaration of the intermediate representation.
#[derive(Debug)]
pub enum QIRHeader {
    /// A global variable; its storage is always reached through a pointer.
    GlobalVariable { name: PathData, ty: QIRType },
    Function {
        name: PathData,
        parameters: Vec<(QIRLocalVariable, QIRType)>,
        return_type: QIRType,
        code_block: QIRBasicBlock,
    },
    /// A structure's physical layout. Field 0 is the type identifier and field 1 the
    /// reference count, both 32-bit; the declared fields follow from index 2.
    Struct { name: PathData, fields: Vec<QIRType> },
}

/// An ordered sequence of operations. Control leaves a block only through an explicit
/// jump, never by falling through.
#[derive(Debug)]
pub struct QIRBasicBlock {
    pub exprs: Vec<QIRExpression>,
}

/// A local variable of a lowered function.
#[derive(Debug)]
pub struct QIRLocalVariable {
    pub name: String,
}

/// An operation of the intermediate representation.
#[derive(Debug)]
pub enum QIRExpression {
    /// Increments the reference count of the object `ptr` points to; yields the new count.
    Retain { ptr: Box<QIRExpression> },
    /// Decrements the reference count; an object whose count reaches zero is freed.
    Release { ptr: Box<QIRExpression> },
    /// A call of a declared function.
    Invoke { name: PathData, arguments: Vec<QIRExpression>, return_type: QIRType },
    /// A call into the runtime routine for `op` on operands of `operand_type`
    /// (an add on 32-bit integers and one on 64-bit floats are distinct routines).
    /// The routine itself guards against division by zero.
    RuntimeCall { op: BinaryOp, operand_type: QIRType, arguments: Vec<QIRExpression>, return_type: QIRType },
    /// A numeric constant, by its source text.
    Constant { content: String, ty: QIRType },
    /// A string object holding `content`.
    StringConstant { content: String },
    /// Allocates a structure; writes `type_id` into field 0 and `reference_count` into
    /// field 1, and yields a pointer to it.
    InstantiateStructure { name: PathData, type_id: usize, reference_count: u32 },
    /// Stores `new_value` through the pointer `receiver`.
    StoreToPtr { receiver: Box<QIRExpression>, output_type: QIRType, new_value: Box<QIRExpression> },
    /// A pointer to field `field` of the structure `receiver` points to, whose layout is
    /// `ptr_type`.
    GetFieldPtr { receiver: Box<QIRExpression>, ptr_type: Vec<QIRType>, output_type: QIRType, field: usize },
    /// Loads the value a pointer points to.
    LoadFromPtr { ptr: Box<QIRExpression> },
    /// Runs the given block.
    GotoBlock { block: QIRBasicBlock },
    /// Runs `if_true` or `if_false` by the condition; both end by jumping to
    /// `continuation`.
    BranchIf {
        condition: Box<QIRExpression>,
        if_true: QIRBasicBlock,
        if_false: QIRBasicBlock,
        continuation: QIRBasicBlock,
    },
    /// Transfers control to the continuation of the enclosing branch.
    JumpToContinuation,
    /// Transfers control back to the header of the enclosing loop.
    LoopBack,
    /// A pointer to a local variable's storage.
    GetLocalPtr { local: QIRLocalVariable },
    /// A pointer to a global variable's storage.
    GetGlobalPtr { global: PathData },
    /// A pointer to scratch storage `index` of the current function. Scratch storage
    /// holds a value between its computation and its use, and owns no reference.
    GetTemporaryPtr { index: usize },
    /// Runs `operations`, which allocate a structure into scratch storage `temporary` and
    /// store its fields through it, then yields the pointer held there.
    BuildStructure { operations: QIRBasicBlock, temporary: usize },
    /// Stands for an expression that could not be lowered.
    Invalid,
}

/// A physical type.
#[derive(Clone, Copy, Debug, PartialEq, Eq, Structural)]
pub enum QIRType {
    Int32,
    Int64,
    Float32,
    Float64,
    Ptr,
    Void,
    Invalid,
    Union,
}

/// The physical type of a source type: numbers map one to one; arrays, structures and
/// unions are heap objects reached through a pointer.
pub open spec fn ir_type(m: TypeModel) -> QIRType {
    match m {
        TypeModel::Int32 => QIRType::Int32,
        TypeModel::Int64 => QIRType::Int64,
        TypeModel::Float32 => QIRType::Float32,
        TypeModel::Float64 => QIRType::Float64,
        TypeModel::ArrayOf(_) => QIRType::Ptr,
        TypeModel::Structure(_) => QIRType::Ptr,
        TypeModel::UnionOf(_, _) => QIRType::Ptr,
        TypeModel::Void => QIRType::Void,
        TypeModel::Invalid => QIRType::Invalid,
    }
}

/// `q` stores a pointer into the local `name`: it binds the pointer to the local.
pub open spec fn binds_local(q: QIRExpression, name: Seq<char>) -> bool {
    q matches QIRExpression::StoreToPtr { receiver, output_type, .. } && output_type == QIRType::Ptr && (*receiver matches QIRExpression::GetLocalPtr {
        local,
    } && local.name@ == name)
}

/// `e` loads scratch storage `index`.
pub open spec fn is_temporary_load(e: QIRExpression, index: int) -> bool {
    e matches QIRExpression::LoadFromPtr { ptr } && (*ptr matches QIRExpression::GetTemporaryPtr { index: i }
        && i == index)
}

/// The operation before the last of a block, if any.
pub open spec fn last_op(s: Seq<QIRExpression>) -> Option<QIRExpression> {
    if s.len() > 0 {
        Some(s.last())
    } else {
        None
    }
}

/// The change an operation `e`, which follows `prev` at the top level of its block, makes
/// to the references held by the local `name`. A retain counts one when the operation
/// right after it binds the retained pointer to `name`; it is counted at that binding.
/// A release counts minus one when it releases the pointer `name` holds, or when it
/// releases the pointer saved in scratch storage 1 right after a binding of `name` (the
/// pointer that `name` held before).
pub open spec fn ref_delta(prev: Option<QIRExpression>, e: QIRExpression, name: Seq<char>) -> int {
    match e {
        QIRExpression::StoreToPtr { new_value, .. } => if binds_local(e, name) && (prev matches Some(
            QIRExpression::Retain { ptr },
        ) && *ptr == *new_value) {
            1
        } else {
            0
        },
        QIRExpression::Release { ptr } => if is_local_load(*ptr, name) || (is_temporary_load(*ptr, 1) && (prev matches Some(
            p,
        ) && binds_local(p, name))) {
            -1
        } else {
            0
        },
        _ => 0,
    }
}

/// What `e` counts does not depend on the operation before it.
pub open spec fn context_free(e: QIRExpression) -> bool {
    match e {
        QIRExpression::StoreToPtr { receiver, output_type, .. } => !(output_type == QIRType::Ptr
            && *receiver is GetLocalPtr),
        QIRExpression::Release { ptr } => !(*ptr matches QIRExpression::LoadFromPtr { ptr: inner }
            && *inner is GetTemporaryPtr),
        _ => true,
    }
}

pub proof fn lemma_context_free(p: Option<QIRExpression>, e: QIRExpression, name: Seq<char>)
    requires
        context_free(e),
    ensures
        ref_delta(p, e, name) == ref_delta(None, e, name),
{
}

/// `e` loads the value of the local `name`.
pub open spec fn is_local_load(e: QIRExpression, name: Seq<char>) -> bool {
    e matches QIRExpression::LoadFromPtr { ptr } && (*ptr matches QIRExpression::GetLocalPtr {
        local,
    } && local.name@ == name)
}

/// The sum of the retains (counted at the stores they precede, as `ref_delta` says)
/// minus the releases on `name` along a path through a block that
/// takes, at each branch, a branch whose own sum is zero: the top-level operations, then
/// the continuations that the path goes on into.
pub open spec fn net_retains(block: Seq<QIRExpression>, name: Seq<char>) -> int
    decreases block,
{
    if block.len() == 0 {
        0
    } else {
        net_retains(block.drop_last(), name) + ref_delta(last_op(block.drop_last()), block.last(), name) + match block.last() {
            QIRExpression::BranchIf { continuation, .. } => net_retains(continuation.exprs@, name),
            QIRExpression::GotoBlock { block: inner } => net_retains(inner.exprs@, name),
            _ => 0,
        }
    }
}

/// Every branch within a block nets zero retains on `name` along each of its paths,
/// at every depth.
pub open spec fn branches_balanced(block: Seq<QIRExpression>, name: Seq<char>) -> bool
    decreases block,
{
    if block.len() == 0 {
        true
    } else {
        branches_balanced(block.drop_last(), name) && match block.last() {
            QIRExpression::BranchIf { if_true, if_false, continuation, .. } => {
                &&& net_retains(if_true.exprs@, name) == 0
                &&& net_retains(if_false.exprs@, name) == 0
                &&& branches_balanced(if_true.exprs@, name)
                &&& branches_balanced(if_false.exprs@, name)
                &&& branches_balanced(continuation.exprs@, name)
            },
            QIRExpression::GotoBlock { block: inner } => branches_balanced(inner.exprs@, name),
            _ => true,
        }
    }
}

/// Retains and releases balance on every local along every path through the block.
pub open spec fn refcounts_balanced(block: Seq<QIRExpression>) -> bool {
    forall|name: Seq<char>|
        #![trigger net_retains(block, name)]
        #![trigger branches_balanced(block, name)]
        net_retains(block, name) == 0 && branches_balanced(block, name)
}

pub proof fn lemma_net_retains_concat(a: Seq<QIRExpression>, b: Seq<QIRExpression>, name: Seq<char>)
    requires
        b.len() > 0 ==> context_free(b[0]),
    ensures
        net_retains(a + b, name) == net_retains(a, name) + net_retains(b, name),
        branches_balanced(a + b, name) == (branches_balanced(a, name) && branches_balanced(b, name)),
    decreases b.len(),
{
    if b.len() == 0 {
        assert(a + b =~= a);
    } else {
        if b.len() > 1 {
            assert(b.drop_last()[0] == b[0]);
        }
        lemma_net_retains_concat(a, b.drop_last(), name);
        assert((a + b).drop_last() =~= a + b.drop_last());
        if b.len() == 1 {
            lemma_context_free(last_op(a), b[0], name);
            assert(b.drop_last() =~= Seq::<QIRExpression>::empty());
        } else {
            assert(last_op(a + b.drop_last()) == last_op(b.drop_last()));
        }
    }
}

} // verus!
