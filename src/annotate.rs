use vstd::prelude::*;

use crate::ast::{AstCodeBlock, AstExpression, AstHeader, AstStatement, AstType, PathData, TypeModel};
use crate::numeric::{fits_f32, fits_i32, float_text, is_float_text, text_fits_f32, text_fits_i32};
use crate::span::Span;
use crate::tokens::Token;
use crate::types::{find_entry, last_position, lemma_last_position_bounds, lookup, Diagnostic, ProgramType, TypeInformation};

verus! {

broadcast use vstd::std_specs::vec::group_vec_axioms, vstd::seq::group_seq_axioms;

/// The type of a numeric literal: with a point, the narrow floating kind when the text is
/// decimal notation whose magnitude the narrow kind can hold, else the wide one; without
/// a point, the narrow integer kind when the value fits in it, else the wide one.
pub open spec fn literal_model(content: Seq<char>) -> TypeModel {
    if content.contains('.') {
        if is_float_text(content) && fits_f32(content) {
            TypeModel::Float32
        } else {
            TypeModel::Float64
        }
    } else if fits_i32(content) {
        TypeModel::Int32
    } else {
        TypeModel::Int64
    }
}

/// The name of the built-in string structure.
pub open spec fn string_structure_name() -> Seq<char> {
    seq!['s', 't', 'd', ':', ':', 's', 't', 'r', 'i', 'n', 'g']
}

pub open spec fn is_integer(m: TypeModel) -> bool {
    m is Int32 || m is Int64
}

/// The variables of a function with their types, in the order they were first assigned.
#[derive(Debug)]
pub struct LocalTypes {
    pub entries: Vec<(String, AstType)>,
}

impl View for LocalTypes {
    type V = Seq<(Seq<char>, TypeModel)>;

    open spec fn view(&self) -> Seq<(Seq<char>, TypeModel)> {
        self.entries@.map_values(|e: (String, AstType)| (e.0@, e.1@))
    }
}

/// The type recorded for `name`, if any.
pub open spec fn local_type(locals: Seq<(Seq<char>, TypeModel)>, name: Seq<char>) -> Option<TypeModel>
    decreases locals.len(),
{
    if locals.len() == 0 {
        None
    } else if locals.last().0 == name {
        Some(locals.last().1)
    } else {
        local_type(locals.drop_last(), name)
    }
}

/// Where an expression stands in the source.
pub open spec fn span_of(e: AstExpression) -> Span {
    match e {
        AstExpression::NumberLiteral { token, .. } => token.span,
        AstExpression::StringLiteral { token, .. } => token.span,
        AstExpression::VariableLiteral { token, .. } => token.span,
        AstExpression::PathLiteral(p) => p.token.span,
        AstExpression::ArrayLiteral { open_bracket_tok, .. } => open_bracket_tok.span,
        AstExpression::StructureLiteral { name, .. } => name.token.span,
        AstExpression::TypeLiteral { token, .. } => token.span,
        AstExpression::Binary { op_tok, .. } => op_tok.span,
        AstExpression::Invoke { open_paren_tok, .. } => open_paren_tok.span,
        AstExpression::Index { open_bracket_tok, .. } => open_bracket_tok.span,
    }
}

/// The name that a call's receiver gives the callee, if it is a name.
pub open spec fn callee_name(receiver: AstExpression) -> Option<String> {
    match receiver {
        AstExpression::VariableLiteral { content, .. } => Some(content),
        AstExpression::PathLiteral(p) => Some(p.name),
        _ => None,
    }
}

/// The parameters and return type of the function declared under `name`.
pub open spec fn function_shape(table: Seq<(String, ProgramType)>, name: Seq<char>) -> Option<(Seq<(String, AstType)>, AstType)> {
    match lookup(table, name) {
        Some(ProgramType::Function { arguments, return_type, .. }) => Some((arguments@, return_type)),
        _ => None,
    }
}

/// The fields of the structure declared under `name`.
pub open spec fn structure_shape(table: Seq<(String, ProgramType)>, name: Seq<char>) -> Option<Seq<(String, AstType)>> {
    match lookup(table, name) {
        Some(ProgramType::Structure { fields, .. }) => Some(fields@),
        _ => None,
    }
}

/// The type of an expression under the given variables and type table.
pub open spec fn expr_model(e: AstExpression, locals: Seq<(Seq<char>, TypeModel)>, table: Seq<(String, ProgramType)>) -> TypeModel
    decreases e, 0nat,
{
    match e {
        AstExpression::NumberLiteral { content, .. } => literal_model(content@),
        AstExpression::StringLiteral { .. } => TypeModel::Structure(string_structure_name()),
        AstExpression::VariableLiteral { content, .. } => match local_type(locals, content@) {
            Some(m) => m,
            None => TypeModel::Invalid,
        },
        AstExpression::PathLiteral(_) => TypeModel::Invalid,
        AstExpression::ArrayLiteral { content, .. } => {
            if content@.len() == 0 {
                TypeModel::Invalid
            } else if first_bad_element(content@, 1, locals, table) == content@.len() {
                TypeModel::ArrayOf(Box::new(expr_model(content@[0], locals, table)))
            } else {
                TypeModel::Invalid
            }
        },
        AstExpression::StructureLiteral { name, fields, .. } => match structure_shape(table, name.name@) {
            Some(declared) => if declared.len() == fields@.len() && first_bad_field(
                fields@,
                declared,
                0,
                locals,
                table,
            ) == fields@.len() {
                TypeModel::Structure(name.name@)
            } else {
                TypeModel::Invalid
            },
            None => TypeModel::Invalid,
        },
        AstExpression::TypeLiteral { ty, .. } => ty@,
        AstExpression::Binary { left, right, .. } => {
            let l = expr_model(*left, locals, table);
            if l == expr_model(*right, locals, table) {
                l
            } else {
                TypeModel::Invalid
            }
        },
        AstExpression::Invoke { receiver, arguments, .. } => match callee_name(*receiver) {
            Some(n) => match function_shape(table, n@) {
                Some((params, ret)) => if params.len() == arguments@.len() && first_bad_argument(
                    arguments@,
                    params,
                    0,
                    locals,
                    table,
                ) == arguments@.len() {
                    ret@
                } else {
                    TypeModel::Invalid
                },
                None => TypeModel::Invalid,
            },
            None => TypeModel::Invalid,
        },
        AstExpression::Index { base, other, .. } => match expr_model(*base, locals, table) {
            TypeModel::ArrayOf(elem) => if is_integer(expr_model(*other, locals, table)) {
                *elem
            } else {
                TypeModel::Invalid
            },
            _ => TypeModel::Invalid,
        },
    }
}

/// The first position from `i` on whose element's type differs from the first element's,
/// or the length.
pub open spec fn first_bad_element(elems: Seq<AstExpression>, i: int, locals: Seq<(Seq<char>, TypeModel)>, table: Seq<(String, ProgramType)>) -> int
    decreases elems, elems.len() - i,
{
    if 0 < i < elems.len() {
        if expr_model(elems[i], locals, table) != expr_model(elems[0], locals, table) {
            i
        } else {
            first_bad_element(elems, i + 1, locals, table)
        }
    } else {
        elems.len() as int
    }
}

/// The field at `i` of a structure literal names a declared field, and no later field
/// of the literal names it again.
pub open spec fn field_named_once(fields: Seq<(String, AstExpression)>, declared: Seq<(String, AstType)>, i: int) -> bool {
    last_position(declared, fields[i].0@) >= 0 && last_position(fields, fields[i].0@) == i
}

/// The first position from `i` on whose field names no declared field, names one that a
/// later field names again, or has another type than the declared field of its name; or
/// the length.
pub open spec fn first_bad_field(fields: Seq<(String, AstExpression)>, declared: Seq<(String, AstType)>, i: int, locals: Seq<(Seq<char>, TypeModel)>, table: Seq<(String, ProgramType)>) -> int
    decreases fields, fields.len() - i,
{
    if 0 <= i < fields.len() {
        if !field_named_once(fields, declared, i) || expr_model(fields[i].1, locals, table)
            != declared[last_position(declared, fields[i].0@)].1@ {
            i
        } else {
            first_bad_field(fields, declared, i + 1, locals, table)
        }
    } else {
        fields.len() as int
    }
}

/// The first position from `i` on whose argument's type differs from the parameter's,
/// or the length.
pub open spec fn first_bad_argument(args: Seq<AstExpression>, params: Seq<(String, AstType)>, i: int, locals: Seq<(Seq<char>, TypeModel)>, table: Seq<(String, ProgramType)>) -> int
    decreases args, args.len() - i,
{
    if 0 <= i < args.len() && i < params.len() {
        if expr_model(args[i], locals, table) != params[i].1@ {
            i
        } else {
            first_bad_argument(args, params, i + 1, locals, table)
        }
    } else {
        args.len() as int
    }
}

/// Every type slot in `e` is empty, as the parser leaves it.
pub open spec fn unannotated(e: AstExpression) -> bool
    decreases e,
{
    match e {
        AstExpression::NumberLiteral { ty, .. } => ty is None,
        AstExpression::StringLiteral { ty, .. } => ty is None,
        AstExpression::VariableLiteral { ty, .. } => ty is None,
        AstExpression::PathLiteral(_) => true,
        AstExpression::ArrayLiteral { content, ty, .. } => ty is None && forall|j: int|
            0 <= j < content@.len() ==> unannotated(#[trigger] content@[j]),
        AstExpression::StructureLiteral { fields, ty, .. } => ty is None && forall|j: int|
            0 <= j < fields@.len() ==> unannotated((#[trigger] fields@[j]).1),
        AstExpression::TypeLiteral { .. } => true,
        AstExpression::Binary { ty, left, right, .. } => ty is None && unannotated(*left) && unannotated(*right),
        AstExpression::Invoke { receiver, arguments, return_type, .. } => return_type is None && unannotated(*receiver)
            && forall|j: int| 0 <= j < arguments@.len() ==> unannotated(#[trigger] arguments@[j]),
        AstExpression::Index { ty, base, other, .. } => ty is None && unannotated(*base) && unannotated(*other),
    }
}

/// The diagnostic of writing a slot: none when it was empty.
pub open spec fn slot_diags(slot: Option<AstType>) -> Seq<Diagnostic> {
    if slot is Some {
        seq![Diagnostic::SlotAlreadySet]
    } else {
        seq![]
    }
}

/// A slot after annotation: an empty slot now holds a type of model `m`; a written one
/// is left as it was.
pub open spec fn filled(before: Option<AstType>, after: Option<AstType>, m: TypeModel) -> bool {
    if before is None {
        after is Some && after->0@ == m
    } else {
        after == before
    }
}

/// The diagnostics of the first `n` expressions of a list, in order.
pub open spec fn list_diags(elems: Seq<AstExpression>, n: int, locals: Seq<(Seq<char>, TypeModel)>, table: Seq<(String, ProgramType)>) -> Seq<Diagnostic>
    decreases elems, n,
{
    if 0 < n <= elems.len() {
        list_diags(elems, n - 1, locals, table) + expr_diags(elems[n - 1], locals, table)
    } else {
        seq![]
    }
}

/// The diagnostics of the first `n` field values of a structure literal, in order.
pub open spec fn field_diags(fields: Seq<(String, AstExpression)>, n: int, locals: Seq<(Seq<char>, TypeModel)>, table: Seq<(String, ProgramType)>) -> Seq<Diagnostic>
    decreases fields, n,
{
    if 0 < n <= fields.len() {
        field_diags(fields, n - 1, locals, table) + expr_diags(fields[n - 1].1, locals, table)
    } else {
        seq![]
    }
}

/// What annotating an expression reports: the diagnostics of its parts, left to right,
/// then its own, then a rewritten slot.
pub open spec fn expr_diags(e: AstExpression, locals: Seq<(Seq<char>, TypeModel)>, table: Seq<(String, ProgramType)>) -> Seq<Diagnostic>
    decreases e, 1nat,
{
    match e {
        AstExpression::NumberLiteral { ty, .. } => slot_diags(ty),
        AstExpression::StringLiteral { ty, .. } => slot_diags(ty),
        AstExpression::VariableLiteral { content, ty, token } => {
            let own = if local_type(locals, content@) is None {
                seq![Diagnostic::UnresolvedIdentifier { name: content, span: token.span }]
            } else {
                seq![]
            };
            own + slot_diags(ty)
        },
        AstExpression::PathLiteral(p) => seq![Diagnostic::UnsupportedConstruct { span: p.token.span }],
        AstExpression::ArrayLiteral { content, ty, open_bracket_tok, .. } => {
            let n = content@.len() as int;
            let k = first_bad_element(content@, 1, locals, table);
            let own = if n == 0 {
                seq![Diagnostic::UnsupportedConstruct { span: open_bracket_tok.span }]
            } else if k < n {
                seq![Diagnostic::TypeMismatch { left: span_of(content@[0]), right: span_of(content@[k]) }]
            } else {
                seq![]
            };
            list_diags(content@, n, locals, table) + own + slot_diags(ty)
        },
        AstExpression::StructureLiteral { name, fields, ty } => {
            let n = fields@.len() as int;
            let own = match structure_shape(table, name.name@) {
                None => seq![Diagnostic::UnresolvedIdentifier { name: name.name, span: name.token.span }],
                Some(declared) => if declared.len() != n {
                    seq![Diagnostic::ShapeConflict { name: name.name, span: name.token.span }]
                } else {
                    let k = first_bad_field(fields@, declared, 0, locals, table);
                    if k < n {
                        if !field_named_once(fields@, declared, k) {
                            seq![Diagnostic::ShapeConflict { name: fields@[k].0, span: span_of(fields@[k].1) }]
                        } else {
                            seq![Diagnostic::TypeMismatch { left: name.token.span, right: span_of(fields@[k].1) }]
                        }
                    } else {
                        seq![]
                    }
                },
            };
            field_diags(fields@, n, locals, table) + own + slot_diags(ty)
        },
        AstExpression::TypeLiteral { .. } => seq![],
        AstExpression::Binary { ty, left, right, .. } => {
            let own = if expr_model(*left, locals, table) != expr_model(*right, locals, table) {
                seq![Diagnostic::TypeMismatch { left: span_of(*left), right: span_of(*right) }]
            } else {
                seq![]
            };
            expr_diags(*left, locals, table) + expr_diags(*right, locals, table) + own + slot_diags(ty)
        },
        AstExpression::Invoke { receiver, arguments, return_type, open_paren_tok, .. } => {
            let n = arguments@.len() as int;
            let own = match callee_name(*receiver) {
                None => seq![Diagnostic::UnsupportedConstruct { span: open_paren_tok.span }],
                Some(callee) => match function_shape(table, callee@) {
                    None => seq![Diagnostic::UnresolvedIdentifier { name: callee, span: span_of(*receiver) }],
                    Some((params, _)) => if params.len() != n {
                        seq![Diagnostic::ShapeConflict { name: callee, span: open_paren_tok.span }]
                    } else {
                        let k = first_bad_argument(arguments@, params, 0, locals, table);
                        if k < n {
                            seq![Diagnostic::TypeMismatch { left: span_of(*receiver), right: span_of(arguments@[k]) }]
                        } else {
                            seq![]
                        }
                    },
                },
            };
            list_diags(arguments@, n, locals, table) + own + slot_diags(return_type)
        },
        AstExpression::Index { ty, base, other, .. } => {
            let ok = match expr_model(*base, locals, table) {
                TypeModel::ArrayOf(_) => is_integer(expr_model(*other, locals, table)),
                _ => false,
            };
            let own = if ok {
                seq![]
            } else {
                seq![Diagnostic::TypeMismatch { left: span_of(*base), right: span_of(*other) }]
            };
            expr_diags(*base, locals, table) + expr_diags(*other, locals, table) + own + slot_diags(ty)
        },
    }
}

/// `after` is `before` annotated: the same tree, with every slot filled with the type
/// of its expression.
pub open spec fn annotated(before: AstExpression, after: AstExpression, locals: Seq<(Seq<char>, TypeModel)>, table: Seq<(String, ProgramType)>) -> bool
    decreases before,
{
    let m = expr_model(before, locals, table);
    match before {
        AstExpression::NumberLiteral { content, ty, token } => after matches AstExpression::NumberLiteral {
            content: c2,
            ty: t2,
            token: k2,
        } && c2 == content && k2 == token && filled(ty, t2, m),
        AstExpression::StringLiteral { content, ty, token } => after matches AstExpression::StringLiteral {
            content: c2,
            ty: t2,
            token: k2,
        } && c2 == content && k2 == token && filled(ty, t2, m),
        AstExpression::VariableLiteral { content, ty, token } => after matches AstExpression::VariableLiteral {
            content: c2,
            ty: t2,
            token: k2,
        } && c2 == content && k2 == token && filled(ty, t2, m),
        AstExpression::PathLiteral(_) => after == before,
        AstExpression::TypeLiteral { .. } => after == before,
        AstExpression::ArrayLiteral { content, ty, open_bracket_tok, close_bracket_tok } => after matches AstExpression::ArrayLiteral {
            content: c2,
            ty: t2,
            open_bracket_tok: o2,
            close_bracket_tok: k2,
        } && o2 == open_bracket_tok && k2 == close_bracket_tok && filled(ty, t2, m) && c2@.len()
            == content@.len() && forall|j: int|
            0 <= j < content@.len() ==> annotated(#[trigger] content@[j], c2@[j], locals, table),
        AstExpression::StructureLiteral { name, fields, ty } => after matches AstExpression::StructureLiteral {
            name: n2,
            fields: f2,
            ty: t2,
        } && n2 == name && filled(ty, t2, m) && f2@.len() == fields@.len() && forall|j: int|
            0 <= j < fields@.len() ==> (#[trigger] fields@[j]).0 == f2@[j].0 && annotated(
                fields@[j].1,
                f2@[j].1,
                locals,
                table,
            ),
        AstExpression::Binary { op, ty, left, right, op_tok } => after matches AstExpression::Binary {
            op: op2,
            ty: t2,
            left: left2,
            right: right2,
            op_tok: k2,
        } && op2 == op && k2 == op_tok && filled(ty, t2, m) && annotated(*left, *left2, locals, table)
            && annotated(*right, *right2, locals, table),
        AstExpression::Invoke {
            receiver,
            arguments,
            return_type,
            open_paren_tok,
            close_paren_tok,
            resolve_as_ufcs,
        } => after matches AstExpression::Invoke {
            receiver: rec2,
            arguments: a2,
            return_type: t2,
            open_paren_tok: o2,
            close_paren_tok: k2,
            resolve_as_ufcs: u2,
        } && rec2 == receiver && o2 == open_paren_tok && k2 == close_paren_tok && u2
            == resolve_as_ufcs && filled(return_type, t2, m) && a2@.len() == arguments@.len()
            && forall|j: int|
            0 <= j < arguments@.len() ==> annotated(#[trigger] arguments@[j], a2@[j], locals, table),
        AstExpression::Index { ty, base, other, open_bracket_tok } => after matches AstExpression::Index {
            ty: t2,
            base: b2,
            other: x2,
            open_bracket_tok: o2,
        } && o2 == open_bracket_tok && filled(ty, t2, m) && annotated(*base, *b2, locals, table)
            && annotated(*other, *x2, locals, table),
    }
}

impl LocalTypes {
    /// No variable yet.
    pub fn new() -> (r: LocalTypes)
        ensures
            r@ == Seq::<(Seq<char>, TypeModel)>::empty(),
    {
        LocalTypes { entries: Vec::new() }
    }

    /// The type recorded for `name`.
    pub fn get(&self, name: &String) -> (r: Option<AstType>)
        ensures
            r is Some == local_type(self@, name@) is Some,
            r is Some ==> r->0@ == local_type(self@, name@)->0,
    {
        let mut i: usize = self.entries.len();
        assert(self@.subrange(0, i as int) =~= self@);
        while i > 0
            invariant
                i <= self.entries@.len(),
                local_type(self@, name@) == local_type(self@.subrange(0, i as int), name@),
            decreases i,
        {
            assert(self@.subrange(0, i as int).drop_last() =~= self@.subrange(0, i - 1));
            if self.entries[i - 1].0 == *name {
                return Some(self.entries[i - 1].1.duplicate());
            }
            i = i - 1;
        }
        None
    }

    /// Records `ty` for `name`, after the entries already there.
    pub fn insert(&mut self, name: String, ty: AstType)
        ensures
            final(self)@ == old(self)@.push((name@, ty@)),
    {
        self.entries.push((name, ty));
        assert(final(self)@ =~= old(self)@.push((name@, ty@)));
    }
}

/// Where an expression stands in the source.
pub fn expression_span(e: &AstExpression) -> (r: Span)
    ensures
        r == span_of(*e),
{
    match e {
        AstExpression::NumberLiteral { token, .. } => token.span.duplicate(),
        AstExpression::StringLiteral { token, .. } => token.span.duplicate(),
        AstExpression::VariableLiteral { token, .. } => token.span.duplicate(),
        AstExpression::PathLiteral(p) => p.token.span.duplicate(),
        AstExpression::ArrayLiteral { open_bracket_tok, .. } => open_bracket_tok.span.duplicate(),
        AstExpression::StructureLiteral { name, .. } => name.token.span.duplicate(),
        AstExpression::TypeLiteral { token, .. } => token.span.duplicate(),
        AstExpression::Binary { op_tok, .. } => op_tok.span.duplicate(),
        AstExpression::Invoke { open_paren_tok, .. } => open_paren_tok.span.duplicate(),
        AstExpression::Index { open_bracket_tok, .. } => open_bracket_tok.span.duplicate(),
    }
}

/// The type of a numeric literal's text.
pub fn classify_number(content: &String) -> (r: AstType)
    ensures
        r@ == literal_model(content@),
{
    let s = content.as_str();
    let len = s.unicode_len();
    let mut i: usize = 0;
    let mut has_point = false;
    while i < len
        invariant
            i <= len,
            len == content@.len(),
            s@ == content@,
            has_point == content@.subrange(0, i as int).contains('.'),
        decreases len - i,
    {
        let c = s.get_char(i);
        proof {
            let sub = content@.subrange(0, i + 1);
            assert(sub.drop_last() =~= content@.subrange(0, i as int));
            if has_point {
                let w = choose|j: int| 0 <= j < i && content@.subrange(0, i as int)[j] == '.';
                assert(sub[w] == '.');
            }
            if c == '.' {
                assert(sub[i as int] == '.');
            }
            if !has_point && c != '.' {
                assert forall|j: int| 0 <= j < i + 1 implies sub[j] != '.' by {
                    if j < i {
                        assert(sub[j] == content@.subrange(0, i as int)[j]);
                    }
                }
            }
        }
        has_point = has_point || c == '.';
        i = i + 1;
    }
    assert(content@.subrange(0, len as int) =~= content@);
    if has_point {
        if float_text(s) && text_fits_f32(s) {
            AstType::Float32
        } else {
            AstType::Float64
        }
    } else if text_fits_i32(s) {
        AstType::Int32
    } else {
        AstType::Int64
    }
}

/// The type of a string literal: the built-in string structure, named at the literal.
fn string_structure(token: &Token) -> (r: AstType)
    ensures
        r@ == TypeModel::Structure(string_structure_name()),
{
    let name = "std::string".to_string();
    proof {
        reveal_strlit("std::string");
        assert(name@ =~= string_structure_name());
    }
    AstType::Structure(PathData { name, token: token.duplicate() })
}

/// Writes `t` into an empty slot; a slot already written is kept and reported.
fn fill_slot(slot: &mut Option<AstType>, t: &AstType, diagnostics: &mut Vec<Diagnostic>)
    ensures
        filled(*old(slot), *final(slot), t@),
        final(diagnostics)@ == old(diagnostics)@ + slot_diags(*old(slot)),
{
    if slot.is_none() {
        *slot = Some(t.duplicate());
        assert(final(diagnostics)@ =~= old(diagnostics)@ + slot_diags(*old(slot)));
    } else {
        diagnostics.push(Diagnostic::SlotAlreadySet);
    }
}

/// Unifies the types of two annotated operands: equal types give that type, others give
/// `Invalid` and one type mismatch naming both operands. The result goes into `ty`.
fn unify_operands(
    l: AstType,
    r: &AstType,
    left_span: Span,
    right_span: Span,
    ty: &mut Option<AstType>,
    diagnostics: &mut Vec<Diagnostic>,
) -> (out: AstType)
    ensures
        out@ == (if l@ == r@ {
            l@
        } else {
            TypeModel::Invalid
        }),
        filled(*old(ty), *final(ty), out@),
        final(diagnostics)@ == old(diagnostics)@ + (if l@ != r@ {
            seq![Diagnostic::TypeMismatch { left: left_span, right: right_span }]
        } else {
            seq![]
        }) + slot_diags(*old(ty)),
{
    let out = if l.same_as(r) {
        l
    } else {
        diagnostics.push(Diagnostic::TypeMismatch { left: left_span, right: right_span });
        AstType::Invalid
    };
    fill_slot(ty, &out, diagnostics);
    assert(final(diagnostics)@ =~= old(diagnostics)@ + (if l@ != r@ {
        seq![Diagnostic::TypeMismatch { left: left_span, right: right_span }]
    } else {
        seq![]
    }) + slot_diags(*old(ty)));
    out
}

impl AstExpression {
    /// The type written into this expression's slot; `Invalid` where there is none.
    pub fn get_type(&self) -> (r: AstType)
        ensures
            r@ == annotated_model(*self),
    {
        match self {
            AstExpression::NumberLiteral { ty, .. } => slot_type(ty),
            AstExpression::StringLiteral { ty, .. } => slot_type(ty),
            AstExpression::VariableLiteral { ty, .. } => slot_type(ty),
            AstExpression::PathLiteral(_) => AstType::Invalid,
            AstExpression::ArrayLiteral { ty, .. } => slot_type(ty),
            AstExpression::StructureLiteral { ty, .. } => slot_type(ty),
            AstExpression::TypeLiteral { ty, .. } => ty.duplicate(),
            AstExpression::Binary { ty, .. } => slot_type(ty),
            AstExpression::Invoke { return_type, .. } => slot_type(return_type),
            AstExpression::Index { ty, .. } => slot_type(ty),
        }
    }

    /// Annotates both operands of a binary operator, then unifies their types into `ty`:
    /// equal types give that type; different ones give `Invalid` and exactly one type
    /// mismatch naming both operands.
    pub fn annotate_binop(
        left: &mut AstExpression,
        right: &mut AstExpression,
        ty: &mut Option<AstType>,
        type_data: &TypeInformation,
        locals: &LocalTypes,
        diagnostics: &mut Vec<Diagnostic>,
    ) -> (r: AstType)
        ensures
            ({
                let l = expr_model(*old(left), locals@, type_data.names@);
                let m = expr_model(*old(right), locals@, type_data.names@);
                &&& r@ == (if l == m {
                    l
                } else {
                    TypeModel::Invalid
                })
                &&& annotated(*old(left), *final(left), locals@, type_data.names@)
                &&& annotated(*old(right), *final(right), locals@, type_data.names@)
                &&& filled(*old(ty), *final(ty), r@)
                &&& final(diagnostics)@ == old(diagnostics)@ + expr_diags(
                    *old(left),
                    locals@,
                    type_data.names@,
                ) + expr_diags(*old(right), locals@, type_data.names@) + (if l != m {
                    seq![Diagnostic::TypeMismatch { left: span_of(*old(left)), right: span_of(*old(right)) }]
                } else {
                    seq![]
                }) + slot_diags(*old(ty))
            }),
    {
        let left_span = expression_span(left);
        let right_span = expression_span(right);
        let l = left.annotate_type_information(type_data, locals, diagnostics);
        let r = right.annotate_type_information(type_data, locals, diagnostics);
        let out = unify_operands(l, &r, left_span, right_span, ty, diagnostics);
        assert(final(diagnostics)@ =~= old(diagnostics)@ + expr_diags(
            *old(left),
            locals@,
            type_data.names@,
        ) + expr_diags(*old(right), locals@, type_data.names@) + (if l@ != r@ {
            seq![Diagnostic::TypeMismatch { left: span_of(*old(left)), right: span_of(*old(right)) }]
        } else {
            seq![]
        }) + slot_diags(*old(ty)));
        out
    }
}

/// The type that annotation wrote for an expression; `Invalid` where it wrote none.
pub open spec fn annotated_model(e: AstExpression) -> TypeModel {
    match e {
        AstExpression::NumberLiteral { ty, .. } => slot_model(ty),
        AstExpression::StringLiteral { ty, .. } => slot_model(ty),
        AstExpression::VariableLiteral { ty, .. } => slot_model(ty),
        AstExpression::PathLiteral(_) => TypeModel::Invalid,
        AstExpression::ArrayLiteral { ty, .. } => slot_model(ty),
        AstExpression::StructureLiteral { ty, .. } => slot_model(ty),
        AstExpression::TypeLiteral { ty, .. } => ty@,
        AstExpression::Binary { ty, .. } => slot_model(ty),
        AstExpression::Invoke { return_type, .. } => slot_model(return_type),
        AstExpression::Index { ty, .. } => slot_model(ty),
    }
}

/// The model of a slot's type; `Invalid` for an empty slot.
pub open spec fn slot_model(slot: Option<AstType>) -> TypeModel {
    match slot {
        Some(t) => t@,
        None => TypeModel::Invalid,
    }
}

fn slot_type(slot: &Option<AstType>) -> (r: AstType)
    ensures
        r@ == slot_model(*slot),
{
    match slot {
        Some(t) => t.duplicate(),
        None => AstType::Invalid,
    }
}

/// Annotates each expression of a list in order; the result holds their types.
fn annotate_list(
    elems: &mut Vec<AstExpression>,
    type_data: &TypeInformation,
    locals: &LocalTypes,
    diagnostics: &mut Vec<Diagnostic>,
) -> (types: Vec<AstType>)
    ensures
        final(elems)@.len() == old(elems)@.len(),
        forall|j: int|
            0 <= j < old(elems)@.len() ==> annotated(
                #[trigger] old(elems)@[j],
                final(elems)@[j],
                locals@,
                type_data.names@,
            ),
        types@.len() == old(elems)@.len(),
        forall|j: int|
            0 <= j < old(elems)@.len() ==> (#[trigger] types@[j])@ == expr_model(
                old(elems)@[j],
                locals@,
                type_data.names@,
            ),
        final(diagnostics)@ == old(diagnostics)@ + list_diags(
            old(elems)@,
            old(elems)@.len() as int,
            locals@,
            type_data.names@,
        ),
    decreases *old(elems),
{
    let ghost b = elems@;
    let ghost d0 = diagnostics@;
    let mut types: Vec<AstType> = Vec::new();
    let n = elems.len();
    let mut i: usize = 0;
    while i < n
        invariant
            i <= n,
            n == b.len(),
            elems@.len() == n,
            b == old(elems)@,
            forall|j: int| 0 <= j < i ==> annotated(#[trigger] b[j], elems@[j], locals@, type_data.names@),
            forall|j: int| i <= j < n ==> #[trigger] elems@[j] == b[j],
            types@.len() == i,
            forall|j: int| 0 <= j < i ==> (#[trigger] types@[j])@ == expr_model(b[j], locals@, type_data.names@),
            diagnostics@ == d0 + list_diags(b, i as int, locals@, type_data.names@),
        decreases n - i,
    {
        assert(elems@[i as int] == b[i as int]);
        let t = elems[i].annotate_type_information(type_data, locals, diagnostics);
        types.push(t);
        proof {
            assert(d0 + list_diags(b, i + 1, locals@, type_data.names@) =~= d0 + list_diags(b, i as int, locals@, type_data.names@) + expr_diags(b[i as int], locals@, type_data.names@));
        }
        i = i + 1;
    }
    types
}

/// Annotates the value of each field of a structure literal in order.
fn annotate_fields(
    fields: &mut Vec<(String, AstExpression)>,
    type_data: &TypeInformation,
    locals: &LocalTypes,
    diagnostics: &mut Vec<Diagnostic>,
) -> (types: Vec<AstType>)
    ensures
        final(fields)@.len() == old(fields)@.len(),
        forall|j: int|
            0 <= j < old(fields)@.len() ==> (#[trigger] old(fields)@[j]).0 == final(fields)@[j].0
                && annotated(old(fields)@[j].1, final(fields)@[j].1, locals@, type_data.names@),
        types@.len() == old(fields)@.len(),
        forall|j: int|
            0 <= j < old(fields)@.len() ==> (#[trigger] types@[j])@ == expr_model(
                old(fields)@[j].1,
                locals@,
                type_data.names@,
            ),
        final(diagnostics)@ == old(diagnostics)@ + field_diags(
            old(fields)@,
            old(fields)@.len() as int,
            locals@,
            type_data.names@,
        ),
    decreases *old(fields),
{
    let ghost b = fields@;
    let ghost d0 = diagnostics@;
    let mut types: Vec<AstType> = Vec::new();
    let n = fields.len();
    let mut i: usize = 0;
    while i < n
        invariant
            i <= n,
            n == b.len(),
            fields@.len() == n,
            b == old(fields)@,
            forall|j: int|
                0 <= j < i ==> (#[trigger] b[j]).0 == fields@[j].0 && annotated(
                    b[j].1,
                    fields@[j].1,
                    locals@,
                    type_data.names@,
                ),
            forall|j: int| i <= j < n ==> #[trigger] fields@[j] == b[j],
            types@.len() == i,
            forall|j: int| 0 <= j < i ==> (#[trigger] types@[j])@ == expr_model(b[j].1, locals@, type_data.names@),
            diagnostics@ == d0 + field_diags(b, i as int, locals@, type_data.names@),
        decreases n - i,
    {
        assert(fields@[i as int] == b[i as int]);
        let t = fields[i].1.annotate_type_information(type_data, locals, diagnostics);
        types.push(t);
        proof {
            assert(d0 + field_diags(b, i + 1, locals@, type_data.names@) =~= d0 + field_diags(b, i as int, locals@, type_data.names@) + expr_diags(b[i as int].1, locals@, type_data.names@));
        }
        i = i + 1;
    }
    types
}

fn bad_element_position(
    types: &Vec<AstType>,
    Ghost(elems): Ghost<Seq<AstExpression>>,
    Ghost(locals): Ghost<Seq<(Seq<char>, TypeModel)>>,
    Ghost(table): Ghost<Seq<(String, ProgramType)>>,
) -> (k: usize)
    requires
        types@.len() == elems.len() > 0,
        forall|j: int| 0 <= j < elems.len() ==> (#[trigger] types@[j])@ == expr_model(elems[j], locals, table),
    ensures
        k == first_bad_element(elems, 1, locals, table),
        k <= elems.len(),
{
    let mut k: usize = 1;
    while k < types.len()
        invariant
            1 <= k <= types@.len(),
            types@.len() == elems.len(),
            forall|j: int| 0 <= j < elems.len() ==> (#[trigger] types@[j])@ == expr_model(elems[j], locals, table),
            first_bad_element(elems, 1, locals, table) == first_bad_element(elems, k as int, locals, table),
        decreases types@.len() - k,
    {
        if !types[k].same_as(&types[0]) {
            return k;
        }
        k = k + 1;
    }
    k
}

proof fn lemma_same_names_position<T, U>(a: Seq<(String, T)>, b: Seq<(String, U)>, name: Seq<char>)
    requires
        a.len() == b.len(),
        forall|j: int| 0 <= j < a.len() ==> (#[trigger] a[j]).0 == b[j].0,
    ensures
        last_position(a, name) == last_position(b, name),
    decreases a.len(),
{
    if a.len() > 0 {
        assert forall|j: int| 0 <= j < a.drop_last().len() implies (#[trigger] a.drop_last()[j]).0 == b.drop_last()[j].0 by {
            assert(a.drop_last()[j] == a[j]);
            assert(b.drop_last()[j] == b[j]);
        }
        lemma_same_names_position(a.drop_last(), b.drop_last(), name);
    }
}

/// Whether field `k` of a structure literal names a declared field that no later field
/// names again; if so, where it is declared.
fn declared_position(
    fields: &Vec<(String, AstExpression)>,
    declared: &Vec<(String, AstType)>,
    k: usize,
    Ghost(before): Ghost<Seq<(String, AstExpression)>>,
) -> (r: Option<usize>)
    requires
        k < fields@.len(),
        before.len() == fields@.len(),
        forall|j: int| 0 <= j < before.len() ==> (#[trigger] fields@[j]).0 == before[j].0,
    ensures
        r is Some == field_named_once(before, declared@, k as int),
        r matches Some(d) ==> d as int == last_position(declared@, before[k as int].0@) && d < declared@.len(),
{
    proof {
        lemma_same_names_position(fields@, before, fields@[k as int].0@);
        assert(fields@[k as int].0 == before[k as int].0);
    }
    match find_entry(declared, &fields[k].0) {
        None => None,
        Some(d) => match find_entry(fields, &fields[k].0) {
            Some(last) => if last == k {
                Some(d)
            } else {
                None
            },
            None => None,
        },
    }
}

fn bad_field_position(
    fields: &Vec<(String, AstExpression)>,
    types: &Vec<AstType>,
    declared: &Vec<(String, AstType)>,
    Ghost(before): Ghost<Seq<(String, AstExpression)>>,
    Ghost(locals): Ghost<Seq<(Seq<char>, TypeModel)>>,
    Ghost(table): Ghost<Seq<(String, ProgramType)>>,
) -> (k: usize)
    requires
        types@.len() == before.len() == fields@.len(),
        forall|j: int| 0 <= j < before.len() ==> (#[trigger] types@[j])@ == expr_model(before[j].1, locals, table),
        forall|j: int| 0 <= j < before.len() ==> (#[trigger] fields@[j]).0 == before[j].0,
    ensures
        k == first_bad_field(before, declared@, 0, locals, table),
        k <= before.len(),
{
    let mut k: usize = 0;
    while k < types.len()
        invariant
            k <= types@.len(),
            types@.len() == before.len() == fields@.len(),
            forall|j: int| 0 <= j < before.len() ==> (#[trigger] types@[j])@ == expr_model(before[j].1, locals, table),
            forall|j: int| 0 <= j < before.len() ==> (#[trigger] fields@[j]).0 == before[j].0,
            first_bad_field(before, declared@, 0, locals, table) == first_bad_field(before, declared@, k as int, locals, table),
        decreases types@.len() - k,
    {
        match declared_position(fields, declared, k, Ghost(before)) {
            None => {
                return k;
            },
            Some(d) => {
                if !types[k].same_as(&declared[d].1) {
                    return k;
                }
            },
        }
        k = k + 1;
    }
    k
}

fn bad_argument_position(
    types: &Vec<AstType>,
    params: &Vec<(String, AstType)>,
    Ghost(args): Ghost<Seq<AstExpression>>,
    Ghost(locals): Ghost<Seq<(Seq<char>, TypeModel)>>,
    Ghost(table): Ghost<Seq<(String, ProgramType)>>,
) -> (k: usize)
    requires
        types@.len() == args.len() == params@.len(),
        forall|j: int| 0 <= j < args.len() ==> (#[trigger] types@[j])@ == expr_model(args[j], locals, table),
    ensures
        k == first_bad_argument(args, params@, 0, locals, table),
        k <= args.len(),
{
    let mut k: usize = 0;
    while k < types.len()
        invariant
            k <= types@.len(),
            types@.len() == args.len() == params@.len(),
            forall|j: int| 0 <= j < args.len() ==> (#[trigger] types@[j])@ == expr_model(args[j], locals, table),
            first_bad_argument(args, params@, 0, locals, table) == first_bad_argument(args, params@, k as int, locals, table),
        decreases types@.len() - k,
    {
        if !types[k].same_as(&params[k].1) {
            return k;
        }
        k = k + 1;
    }
    k
}

fn is_integer_type(t: &AstType) -> (r: bool)
    ensures
        r == is_integer(t@),
{
    match t {
        AstType::Int32 => true,
        AstType::Int64 => true,
        _ => false,
    }
}

impl AstExpression {
    /// Annotates this expression and everything in it: each empty slot receives the type
    /// of its expression, and every problem found is appended to `diagnostics`.
    /// Returns the expression's type.
    pub fn annotate_type_information(
        &mut self,
        type_data: &TypeInformation,
        locals: &LocalTypes,
        diagnostics: &mut Vec<Diagnostic>,
    ) -> (r: AstType)
        ensures
            r@ == expr_model(*old(self), locals@, type_data.names@),
            annotated(*old(self), *final(self), locals@, type_data.names@),
            final(diagnostics)@ == old(diagnostics)@ + expr_diags(*old(self), locals@, type_data.names@),
        decreases *old(self), 1nat,
    {
        let ghost before = *self;
        let ghost d0 = diagnostics@;
        let ghost lm = locals@;
        let ghost tb = type_data.names@;
        match self {
            AstExpression::NumberLiteral { content, ty, .. } => {
                let t = classify_number(content);
                fill_slot(ty, &t, diagnostics);
                t
            },
            AstExpression::StringLiteral { ty, token, .. } => {
                let t = string_structure(token);
                fill_slot(ty, &t, diagnostics);
                t
            },
            AstExpression::VariableLiteral { content, ty, token } => {
                let t = match locals.get(content) {
                    Some(t) => t,
                    None => {
                        diagnostics.push(
                            Diagnostic::UnresolvedIdentifier { name: content.clone(), span: token.span.duplicate() },
                        );
                        AstType::Invalid
                    },
                };
                fill_slot(ty, &t, diagnostics);
                assert(diagnostics@ =~= d0 + expr_diags(before, lm, tb));
                t
            },
            AstExpression::PathLiteral(p) => {
                diagnostics.push(Diagnostic::UnsupportedConstruct { span: p.token.span.duplicate() });
                assert(diagnostics@ =~= d0 + expr_diags(before, lm, tb));
                AstType::Invalid
            },
            AstExpression::TypeLiteral { ty, .. } => {
                assert(diagnostics@ =~= d0 + expr_diags(before, lm, tb));
                ty.duplicate()
            },
            AstExpression::Binary { .. } => self.annotate_binary(type_data, locals, diagnostics),
            AstExpression::Index { .. } => self.annotate_index(type_data, locals, diagnostics),
            AstExpression::ArrayLiteral { .. } => self.annotate_array(type_data, locals, diagnostics),
            AstExpression::StructureLiteral { .. } => self.annotate_structure(type_data, locals, diagnostics),
            AstExpression::Invoke { .. } => self.annotate_invoke(type_data, locals, diagnostics),
        }
    }

    fn annotate_binary(
        &mut self,
        type_data: &TypeInformation,
        locals: &LocalTypes,
        diagnostics: &mut Vec<Diagnostic>,
    ) -> (r: AstType)
        requires
            *old(self) is Binary,
        ensures
            r@ == expr_model(*old(self), locals@, type_data.names@),
            annotated(*old(self), *final(self), locals@, type_data.names@),
            final(diagnostics)@ == old(diagnostics)@ + expr_diags(*old(self), locals@, type_data.names@),
        decreases *old(self), 0nat,
    {
        let ghost before = *self;
        let ghost d0 = diagnostics@;
        let ghost lm = locals@;
        let ghost tb = type_data.names@;
        match self {
            AstExpression::Binary { ty, left, right, .. } => {
                let left_span = expression_span(left);
                let right_span = expression_span(right);
                let l = left.annotate_type_information(type_data, locals, diagnostics);
                let r = right.annotate_type_information(type_data, locals, diagnostics);
                let out = unify_operands(l, &r, left_span, right_span, ty, diagnostics);
                assert(diagnostics@ =~= d0 + expr_diags(before, lm, tb));
                out
            },
            _ => AstType::Invalid,
        }
    }

    fn annotate_index(
        &mut self,
        type_data: &TypeInformation,
        locals: &LocalTypes,
        diagnostics: &mut Vec<Diagnostic>,
    ) -> (r: AstType)
        requires
            *old(self) is Index,
        ensures
            r@ == expr_model(*old(self), locals@, type_data.names@),
            annotated(*old(self), *final(self), locals@, type_data.names@),
            final(diagnostics)@ == old(diagnostics)@ + expr_diags(*old(self), locals@, type_data.names@),
        decreases *old(self), 0nat,
    {
        let ghost before = *self;
        let ghost d0 = diagnostics@;
        let ghost lm = locals@;
        let ghost tb = type_data.names@;
        match self {
            AstExpression::Index { ty, base, other, .. } => {
                let base_span = expression_span(base);
                let other_span = expression_span(other);
                let b = base.annotate_type_information(type_data, locals, diagnostics);
                let o = other.annotate_type_information(type_data, locals, diagnostics);
                let t = match b {
                    AstType::ArrayOf(elem) => if is_integer_type(&o) {
                        *elem
                    } else {
                        diagnostics.push(Diagnostic::TypeMismatch { left: base_span, right: other_span });
                        AstType::Invalid
                    },
                    _ => {
                        diagnostics.push(Diagnostic::TypeMismatch { left: base_span, right: other_span });
                        AstType::Invalid
                    },
                };
                fill_slot(ty, &t, diagnostics);
                assert(diagnostics@ =~= d0 + expr_diags(before, lm, tb));
                t
            },
            _ => AstType::Invalid,
        }
    }

    fn annotate_array(
        &mut self,
        type_data: &TypeInformation,
        locals: &LocalTypes,
        diagnostics: &mut Vec<Diagnostic>,
    ) -> (r: AstType)
        requires
            *old(self) is ArrayLiteral,
        ensures
            r@ == expr_model(*old(self), locals@, type_data.names@),
            annotated(*old(self), *final(self), locals@, type_data.names@),
            final(diagnostics)@ == old(diagnostics)@ + expr_diags(*old(self), locals@, type_data.names@),
        decreases *old(self), 0nat,
    {
        let ghost before = *self;
        let ghost d0 = diagnostics@;
        let ghost lm = locals@;
        let ghost tb = type_data.names@;
        match self {
            AstExpression::ArrayLiteral { content, ty, open_bracket_tok, .. } => {
                let ghost elems = content@;
                assert(match before {
                    AstExpression::ArrayLiteral { content: c, ty: t0, .. } => c@ == elems && t0 == *ty,
                    _ => false,
                });
                let types = annotate_list(content, type_data, locals, diagnostics);
                let t = if types.len() == 0 {
                    diagnostics.push(Diagnostic::UnsupportedConstruct { span: open_bracket_tok.span.duplicate() });
                    AstType::Invalid
                } else {
                    let k = bad_element_position(&types, Ghost(elems), Ghost(lm), Ghost(tb));
                    if k < types.len() {
                        proof {
                            lemma_annotated_span(elems[0], content@[0], lm, tb);
                            lemma_annotated_span(elems[k as int], content@[k as int], lm, tb);
                        }
                        let first_span = expression_span(&content[0]);
                        let bad_span = expression_span(&content[k]);
                        diagnostics.push(Diagnostic::TypeMismatch { left: first_span, right: bad_span });
                        AstType::Invalid
                    } else {
                        AstType::ArrayOf(Box::new(types[0].duplicate()))
                    }
                };
                fill_slot(ty, &t, diagnostics);
                assert(diagnostics@ =~= d0 + expr_diags(before, lm, tb));
                t
            },
            _ => AstType::Invalid,
        }
    }

    fn annotate_structure(
        &mut self,
        type_data: &TypeInformation,
        locals: &LocalTypes,
        diagnostics: &mut Vec<Diagnostic>,
    ) -> (r: AstType)
        requires
            *old(self) is StructureLiteral,
        ensures
            r@ == expr_model(*old(self), locals@, type_data.names@),
            annotated(*old(self), *final(self), locals@, type_data.names@),
            final(diagnostics)@ == old(diagnostics)@ + expr_diags(*old(self), locals@, type_data.names@),
        decreases *old(self), 0nat,
    {
        let ghost before = *self;
        let ghost d0 = diagnostics@;
        let ghost lm = locals@;
        let ghost tb = type_data.names@;
        match self {
            AstExpression::StructureLiteral { name, fields, ty } => {
                let ghost fb = fields@;
                let types = annotate_fields(fields, type_data, locals, diagnostics);
                let t = match type_data.position_of(&name.name) {
                    Some(i) => match &type_data.names[i].1 {
                        ProgramType::Structure { fields: declared, .. } => {
                            if declared.len() != fields.len() {
                                diagnostics.push(
                                    Diagnostic::ShapeConflict { name: name.name.clone(), span: name.token.span.duplicate() },
                                );
                                AstType::Invalid
                            } else {
                                let k = bad_field_position(fields, &types, declared, Ghost(fb), Ghost(lm), Ghost(tb));
                                if k < fields.len() {
                                    proof {
                                        lemma_annotated_span(fb[k as int].1, fields@[k as int].1, lm, tb);
                                    }
                                    let bad_span = expression_span(&fields[k].1);
                                    if declared_position(fields, declared, k, Ghost(fb)).is_none() {
                                        diagnostics.push(
                                            Diagnostic::ShapeConflict { name: fields[k].0.clone(), span: bad_span },
                                        );
                                    } else {
                                        diagnostics.push(
                                            Diagnostic::TypeMismatch { left: name.token.span.duplicate(), right: bad_span },
                                        );
                                    }
                                    AstType::Invalid
                                } else {
                                    AstType::Structure(name.duplicate())
                                }
                            }
                        },
                        _ => {
                            diagnostics.push(
                                Diagnostic::UnresolvedIdentifier { name: name.name.clone(), span: name.token.span.duplicate() },
                            );
                            AstType::Invalid
                        },
                    },
                    None => {
                        diagnostics.push(
                            Diagnostic::UnresolvedIdentifier { name: name.name.clone(), span: name.token.span.duplicate() },
                        );
                        AstType::Invalid
                    },
                };
                fill_slot(ty, &t, diagnostics);
                assert(diagnostics@ =~= d0 + expr_diags(before, lm, tb));
                t
            },
            _ => AstType::Invalid,
        }
    }

    fn annotate_invoke(
        &mut self,
        type_data: &TypeInformation,
        locals: &LocalTypes,
        diagnostics: &mut Vec<Diagnostic>,
    ) -> (r: AstType)
        requires
            *old(self) is Invoke,
        ensures
            r@ == expr_model(*old(self), locals@, type_data.names@),
            annotated(*old(self), *final(self), locals@, type_data.names@),
            final(diagnostics)@ == old(diagnostics)@ + expr_diags(*old(self), locals@, type_data.names@),
        decreases *old(self), 0nat,
    {
        let ghost before = *self;
        let ghost d0 = diagnostics@;
        let ghost lm = locals@;
        let ghost tb = type_data.names@;
        match self {
            AstExpression::Invoke { receiver, arguments, return_type, open_paren_tok, .. } => {
                let ghost args = arguments@;
                let types = annotate_list(arguments, type_data, locals, diagnostics);
                let callee = match &**receiver {
                    AstExpression::VariableLiteral { content, .. } => Some(content.clone()),
                    AstExpression::PathLiteral(p) => Some(p.name.clone()),
                    _ => None,
                };
                let t = match callee {
                    None => {
                        diagnostics.push(Diagnostic::UnsupportedConstruct { span: open_paren_tok.span.duplicate() });
                        AstType::Invalid
                    },
                    Some(callee) => {
                        let found = match type_data.position_of(&callee) {
                            Some(i) => match &type_data.names[i].1 {
                                ProgramType::Function { arguments: params, return_type: ret, .. } => Some((params, ret)),
                                _ => None,
                            },
                            None => None,
                        };
                        match found {
                            None => {
                                diagnostics.push(
                                    Diagnostic::UnresolvedIdentifier { name: callee, span: expression_span(receiver) },
                                );
                                AstType::Invalid
                            },
                            Some((params, ret)) => {
                                if params.len() != arguments.len() {
                                    diagnostics.push(
                                        Diagnostic::ShapeConflict { name: callee, span: open_paren_tok.span.duplicate() },
                                    );
                                    AstType::Invalid
                                } else {
                                    let k = bad_argument_position(&types, params, Ghost(args), Ghost(lm), Ghost(tb));
                                    if k < arguments.len() {
                                        proof {
                                            lemma_annotated_span(args[k as int], arguments@[k as int], lm, tb);
                                        }
                                        let bad_span = expression_span(&arguments[k]);
                                        diagnostics.push(
                                            Diagnostic::TypeMismatch { left: expression_span(receiver), right: bad_span },
                                        );
                                        AstType::Invalid
                                    } else {
                                        ret.duplicate()
                                    }
                                }
                            },
                        }
                    },
                };
                fill_slot(return_type, &t, diagnostics);
                assert(diagnostics@ =~= d0 + expr_diags(before, lm, tb));
                t
            },
            _ => AstType::Invalid,
        }
    }
}

/// Annotation keeps where an expression stands.
pub proof fn lemma_annotated_span(
    before: AstExpression,
    after: AstExpression,
    locals: Seq<(Seq<char>, TypeModel)>,
    table: Seq<(String, ProgramType)>,
)
    requires
        annotated(before, after, locals, table),
    ensures
        span_of(after) == span_of(before),
{
}

/// The type a variable has after `name = value;`: the type it was first given, or, on
/// its first assignment, the value's.
pub open spec fn assigned_model(name: Seq<char>, value: AstExpression, locals: Seq<(Seq<char>, TypeModel)>, table: Seq<(String, ProgramType)>) -> TypeModel {
    match local_type(locals, name) {
        Some(m) => m,
        None => expr_model(value, locals, table),
    }
}

/// A condition must have an integer type; an `Invalid` one was reported already.
pub open spec fn condition_diags(cond: AstExpression, locals: Seq<(Seq<char>, TypeModel)>, table: Seq<(String, ProgramType)>) -> Seq<Diagnostic> {
    let m = expr_model(cond, locals, table);
    if is_integer(m) || m is Invalid {
        seq![]
    } else {
        seq![Diagnostic::TypeMismatch { left: span_of(cond), right: span_of(cond) }]
    }
}

/// The variables after a statement. A variable is declared by its first assignment and
/// keeps that type for the rest of the function.
pub open spec fn stmt_locals(s: AstStatement, locals: Seq<(Seq<char>, TypeModel)>, table: Seq<(String, ProgramType)>) -> Seq<(Seq<char>, TypeModel)>
    decreases s,
{
    match s {
        AstStatement::ModifyVariable { name, value, .. } => if local_type(locals, name@) is None {
            locals.push((name@, expr_model(value, locals, table)))
        } else {
            locals
        },
        AstStatement::IfStatement { if_true, if_false, .. } => {
            let after_true = block_locals(if_true.statements@, if_true.statements@.len() as int, locals, table);
            block_locals(if_false.statements@, if_false.statements@.len() as int, after_true, table)
        },
        AstStatement::WhileStatement { do_true, .. } => block_locals(
            do_true.statements@,
            do_true.statements@.len() as int,
            locals,
            table,
        ),
        _ => locals,
    }
}

/// The variables after the first `n` statements of a block.
pub open spec fn block_locals(stmts: Seq<AstStatement>, n: int, locals: Seq<(Seq<char>, TypeModel)>, table: Seq<(String, ProgramType)>) -> Seq<(Seq<char>, TypeModel)>
    decreases stmts, n,
{
    if 0 < n <= stmts.len() {
        stmt_locals(stmts[n - 1], block_locals(stmts, n - 1, locals, table), table)
    } else {
        locals
    }
}

/// What annotating a statement reports.
pub open spec fn stmt_diags(s: AstStatement, locals: Seq<(Seq<char>, TypeModel)>, table: Seq<(String, ProgramType)>) -> Seq<Diagnostic>
    decreases s,
{
    match s {
        AstStatement::Comment(_) => seq![],
        AstStatement::Expression(e) => expr_diags(e, locals, table),
        AstStatement::ModifyVariable { name, ty, value, token } => {
            let own = match local_type(locals, name@) {
                Some(m) => if m != expr_model(value, locals, table) {
                    seq![Diagnostic::TypeMismatch { left: token.span, right: span_of(value) }]
                } else {
                    seq![]
                },
                None => seq![],
            };
            expr_diags(value, locals, table) + own + slot_diags(ty)
        },
        AstStatement::IfStatement { cond, if_true, if_false } => {
            let after_true = block_locals(if_true.statements@, if_true.statements@.len() as int, locals, table);
            expr_diags(cond, locals, table) + condition_diags(cond, locals, table) + block_diags(
                if_true.statements@,
                if_true.statements@.len() as int,
                locals,
                table,
            ) + block_diags(if_false.statements@, if_false.statements@.len() as int, after_true, table)
        },
        AstStatement::WhileStatement { cond, do_true } => expr_diags(cond, locals, table)
            + condition_diags(cond, locals, table) + block_diags(
            do_true.statements@,
            do_true.statements@.len() as int,
            locals,
            table,
        ),
    }
}

/// What annotating the first `n` statements of a block reports.
pub open spec fn block_diags(stmts: Seq<AstStatement>, n: int, locals: Seq<(Seq<char>, TypeModel)>, table: Seq<(String, ProgramType)>) -> Seq<Diagnostic>
    decreases stmts, n,
{
    if 0 < n <= stmts.len() {
        block_diags(stmts, n - 1, locals, table) + stmt_diags(
            stmts[n - 1],
            block_locals(stmts, n - 1, locals, table),
            table,
        )
    } else {
        seq![]
    }
}

/// `after` is the statement `before` annotated.
pub open spec fn stmt_annotated(before: AstStatement, after: AstStatement, locals: Seq<(Seq<char>, TypeModel)>, table: Seq<(String, ProgramType)>) -> bool
    decreases before,
{
    match before {
        AstStatement::Comment(_) => after == before,
        AstStatement::Expression(e) => after matches AstStatement::Expression(e2) && annotated(e, e2, locals, table),
        AstStatement::ModifyVariable { name, ty, value, token } => after matches AstStatement::ModifyVariable {
            name: n2,
            ty: t2,
            value: v2,
            token: k2,
        } && n2 == name && k2 == token && annotated(value, v2, locals, table) && filled(
            ty,
            t2,
            assigned_model(name@, value, locals, table),
        ),
        AstStatement::IfStatement { cond, if_true, if_false } => {
            let after_true = block_locals(if_true.statements@, if_true.statements@.len() as int, locals, table);
            after matches AstStatement::IfStatement { cond: c2, if_true: t2, if_false: f2 } && annotated(
                cond,
                c2,
                locals,
                table,
            ) && t2.statements@.len() == if_true.statements@.len() && (forall|j: int|
                0 <= j < if_true.statements@.len() ==> stmt_annotated(
                    #[trigger] if_true.statements@[j],
                    t2.statements@[j],
                    block_locals(if_true.statements@, j, locals, table),
                    table,
                )) && f2.statements@.len() == if_false.statements@.len() && (forall|j: int|
                0 <= j < if_false.statements@.len() ==> stmt_annotated(
                    #[trigger] if_false.statements@[j],
                    f2.statements@[j],
                    block_locals(if_false.statements@, j, after_true, table),
                    table,
                ))
        },
        AstStatement::WhileStatement { cond, do_true } => after matches AstStatement::WhileStatement {
            cond: c2,
            do_true: b2,
        } && annotated(cond, c2, locals, table) && b2.statements@.len() == do_true.statements@.len()
            && forall|j: int|
            0 <= j < do_true.statements@.len() ==> stmt_annotated(
                #[trigger] do_true.statements@[j],
                b2.statements@[j],
                block_locals(do_true.statements@, j, locals, table),
                table,
            ),
    }
}

/// `after` is the block `before` annotated, statement by statement, starting from `locals`.
pub open spec fn block_annotated(before: Seq<AstStatement>, after: Seq<AstStatement>, locals: Seq<(Seq<char>, TypeModel)>, table: Seq<(String, ProgramType)>) -> bool {
    after.len() == before.len() && forall|j: int|
        0 <= j < before.len() ==> stmt_annotated(
            #[trigger] before[j],
            after[j],
            block_locals(before, j, locals, table),
            table,
        )
}

fn check_condition(cond_type: &AstType, span: Span, diagnostics: &mut Vec<Diagnostic>)
    ensures
        final(diagnostics)@ == old(diagnostics)@ + (if is_integer(cond_type@) || cond_type@ is Invalid {
            seq![]
        } else {
            seq![Diagnostic::TypeMismatch { left: span, right: span }]
        }),
{
    match cond_type {
        AstType::Int32 | AstType::Int64 | AstType::Invalid => {
            assert(final(diagnostics)@ =~= old(diagnostics)@ + seq![]);
        },
        _ => {
            diagnostics.push(Diagnostic::TypeMismatch { left: span.duplicate(), right: span });
        },
    }
}

impl AstCodeBlock {
    /// Annotates the statements of this block in order, threading the variables through.
    pub fn annotate_type_information(
        &mut self,
        type_information: &TypeInformation,
        locals: &mut LocalTypes,
        diagnostics: &mut Vec<Diagnostic>,
    )
        ensures
            final(locals)@ == block_locals(
                old(self).statements@,
                old(self).statements@.len() as int,
                old(locals)@,
                type_information.names@,
            ),
            block_annotated(old(self).statements@, final(self).statements@, old(locals)@, type_information.names@),
            final(diagnostics)@ == old(diagnostics)@ + block_diags(
                old(self).statements@,
                old(self).statements@.len() as int,
                old(locals)@,
                type_information.names@,
            ),
        decreases *old(self),
    {
        let ghost b = self.statements@;
        let ghost l0 = locals@;
        let ghost d0 = diagnostics@;
        let ghost tb = type_information.names@;
        let n = self.statements.len();
        let mut i: usize = 0;
        while i < n
            invariant
                i <= n,
                n == b.len(),
                b == old(self).statements@,
                l0 == old(locals)@,
                tb == type_information.names@,
                self.statements@.len() == n,
                forall|j: int|
                    0 <= j < i ==> stmt_annotated(#[trigger] b[j], self.statements@[j], block_locals(b, j, l0, tb), tb),
                forall|j: int| i <= j < n ==> #[trigger] self.statements@[j] == b[j],
                locals@ == block_locals(b, i as int, l0, tb),
                diagnostics@ == d0 + block_diags(b, i as int, l0, tb),
            decreases n - i,
        {
            assert(self.statements@[i as int] == b[i as int]);
            self.statements[i].annotate_type_information(type_information, locals, diagnostics);
            proof {
                assert(d0 + block_diags(b, i + 1, l0, tb) =~= d0 + block_diags(b, i as int, l0, tb)
                    + stmt_diags(b[i as int], block_locals(b, i as int, l0, tb), tb));
            }
            i = i + 1;
        }
    }
}

impl AstStatement {
    /// Annotates this statement. An assignment declares its variable with the value's type
    /// when the variable is new; a later assignment of another type is a type mismatch,
    /// and the variable keeps its first type. Conditions must have an integer type.
    pub fn annotate_type_information(
        &mut self,
        type_information: &TypeInformation,
        locals: &mut LocalTypes,
        diagnostics: &mut Vec<Diagnostic>,
    )
        ensures
            final(locals)@ == stmt_locals(*old(self), old(locals)@, type_information.names@),
            stmt_annotated(*old(self), *final(self), old(locals)@, type_information.names@),
            final(diagnostics)@ == old(diagnostics)@ + stmt_diags(*old(self), old(locals)@, type_information.names@),
        decreases *old(self),
    {
        let ghost before = *self;
        let ghost l0 = locals@;
        let ghost d0 = diagnostics@;
        let ghost tb = type_information.names@;
        match self {
            AstStatement::Comment(_) => {
                assert(diagnostics@ =~= d0 + stmt_diags(before, l0, tb));
            },
            AstStatement::Expression(e) => {
                e.annotate_type_information(type_information, locals, diagnostics);
            },
            AstStatement::ModifyVariable { name, ty, value, token } => {
                let value_span = expression_span(value);
                let t = value.annotate_type_information(type_information, locals, diagnostics);
                let var_ty = match locals.get(name) {
                    Some(existing) => {
                        if !existing.same_as(&t) {
                            diagnostics.push(Diagnostic::TypeMismatch { left: token.span.duplicate(), right: value_span });
                        }
                        existing
                    },
                    None => {
                        locals.insert(name.clone(), t.duplicate());
                        t
                    },
                };
                fill_slot(ty, &var_ty, diagnostics);
                assert(diagnostics@ =~= d0 + stmt_diags(before, l0, tb));
            },
            AstStatement::IfStatement { cond, if_true, if_false } => {
                let cond_span = expression_span(cond);
                let c = cond.annotate_type_information(type_information, locals, diagnostics);
                check_condition(&c, cond_span, diagnostics);
                if_true.annotate_type_information(type_information, locals, diagnostics);
                if_false.annotate_type_information(type_information, locals, diagnostics);
                assert(diagnostics@ =~= d0 + stmt_diags(before, l0, tb));
            },
            AstStatement::WhileStatement { cond, do_true } => {
                let cond_span = expression_span(cond);
                let c = cond.annotate_type_information(type_information, locals, diagnostics);
                check_condition(&c, cond_span, diagnostics);
                do_true.annotate_type_information(type_information, locals, diagnostics);
                assert(diagnostics@ =~= d0 + stmt_diags(before, l0, tb));
            },
        }
    }
}

/// `after` is the declaration `before` with its body, if it is a function, annotated
/// from an empty set of variables.
pub open spec fn header_annotated(before: AstHeader, after: AstHeader, table: Seq<(String, ProgramType)>) -> bool {
    match before {
        AstHeader::Function { name, parameters, return_type, code_block } => after matches AstHeader::Function {
            name: n2,
            parameters: p2,
            return_type: r2,
            code_block: c2,
        } && n2 == name && p2 == parameters && r2 == return_type && block_annotated(
            code_block.statements@,
            c2.statements@,
            Seq::empty(),
            table,
        ),
        _ => after == before,
    }
}

/// What annotating a declaration reports.
pub open spec fn header_diags(h: AstHeader, table: Seq<(String, ProgramType)>) -> Seq<Diagnostic> {
    match h {
        AstHeader::Function { code_block, .. } => block_diags(
            code_block.statements@,
            code_block.statements@.len() as int,
            Seq::empty(),
            table,
        ),
        _ => seq![],
    }
}

impl AstHeader {
    /// Annotates the body of a function, with a fresh, empty set of variables; other
    /// declarations have no body. Returns the function's variables with their types.
    pub fn annotate_type_information(&mut self, type_information: &TypeInformation, diagnostics: &mut Vec<Diagnostic>) -> (locals: LocalTypes)
        ensures
            header_annotated(*old(self), *final(self), type_information.names@),
            final(diagnostics)@ == old(diagnostics)@ + header_diags(*old(self), type_information.names@),
            match *old(self) {
                AstHeader::Function { code_block, .. } => locals@ == block_locals(
                    code_block.statements@,
                    code_block.statements@.len() as int,
                    Seq::empty(),
                    type_information.names@,
                ),
                _ => locals@.len() == 0,
            },
    {
        let mut locals = LocalTypes::new();
        match self {
            AstHeader::Function { code_block, .. } => {
                code_block.annotate_type_information(type_information, &mut locals, diagnostics);
            },
            _ => {
                assert(diagnostics@ =~= old(diagnostics)@ + header_diags(*old(self), type_information.names@));
            },
        }
        locals
    }
}

/// The diagnostics of annotating the first `n` declarations.
pub open spec fn program_diags(headers: Seq<AstHeader>, n: int, table: Seq<(String, ProgramType)>) -> Seq<Diagnostic>
    decreases n,
{
    if 0 < n <= headers.len() {
        program_diags(headers, n - 1, table) + header_diags(headers[n - 1], table)
    } else {
        seq![]
    }
}

/// Annotates every function of a program, each with its own variables.
pub fn annotate_program(headers: &mut Vec<AstHeader>, type_information: &TypeInformation, diagnostics: &mut Vec<Diagnostic>)
    ensures
        final(headers)@.len() == old(headers)@.len(),
        forall|j: int|
            0 <= j < old(headers)@.len() ==> header_annotated(
                #[trigger] old(headers)@[j],
                final(headers)@[j],
                type_information.names@,
            ),
        final(diagnostics)@ == old(diagnostics)@ + program_diags(
            old(headers)@,
            old(headers)@.len() as int,
            type_information.names@,
        ),
{
    let ghost b = headers@;
    let n = headers.len();
    let mut i: usize = 0;
    while i < n
        invariant
            i <= n,
            n == b.len(),
            b == old(headers)@,
            headers@.len() == n,
            forall|j: int| 0 <= j < i ==> header_annotated(#[trigger] b[j], headers@[j], type_information.names@),
            forall|j: int| i <= j < n ==> #[trigger] headers@[j] == b[j],
            diagnostics@ == old(diagnostics)@ + program_diags(b, i as int, type_information.names@),
        decreases n - i,
    {
        assert(headers@[i as int] == b[i as int]);
        let _ = headers[i].annotate_type_information(type_information, diagnostics);
        proof {
            assert(old(diagnostics)@ + program_diags(b, i + 1, type_information.names@) =~= old(diagnostics)@
                + program_diags(b, i as int, type_information.names@) + header_diags(b[i as int], type_information.names@));
        }
        i = i + 1;
    }
}

/// A numeric literal with a decimal point is given a floating-point type, and one without
/// an integer type.
pub proof fn lemma_literal_kind(content: Seq<char>)
    ensures
        content.contains('.') ==> (literal_model(content) is Float32 || literal_model(content) is Float64),
        !content.contains('.') ==> (literal_model(content) is Int32 || literal_model(content) is Int64),
{
}

/// Binary operators unify strictly: operands of equal types give that type and add no
/// diagnostic of their own; operands of different types give `Invalid` and add exactly
/// one type mismatch, which names both operands.
pub proof fn lemma_binary_unification(
    e: AstExpression,
    locals: Seq<(Seq<char>, TypeModel)>,
    table: Seq<(String, ProgramType)>,
)
    requires
        e matches AstExpression::Binary { ty, .. } && ty is None,
    ensures
        ({
            let (left, right) = match e {
                AstExpression::Binary { left, right, .. } => (*left, *right),
                _ => (e, e),
            };
            let l = expr_model(left, locals, table);
            let m = expr_model(right, locals, table);
            let operands = expr_diags(left, locals, table) + expr_diags(right, locals, table);
            &&& l == m ==> expr_model(e, locals, table) == l && expr_diags(e, locals, table) == operands
            &&& l != m ==> expr_model(e, locals, table) == TypeModel::Invalid && expr_diags(e, locals, table)
                == operands.push(Diagnostic::TypeMismatch { left: span_of(left), right: span_of(right) })
        }),
{
    if let AstExpression::Binary { left, right, ty, .. } = e {
        let operands = expr_diags(*left, locals, table) + expr_diags(*right, locals, table);
        assert(expr_diags(e, locals, table) =~= operands + (if expr_model(*left, locals, table) != expr_model(*right, locals, table) {
            seq![Diagnostic::TypeMismatch { left: span_of(*left), right: span_of(*right) }]
        } else {
            seq![]
        }) + slot_diags(ty));
        assert(operands + seq![Diagnostic::TypeMismatch { left: span_of(*left), right: span_of(*right) }] + seq![]
            =~= operands.push(Diagnostic::TypeMismatch { left: span_of(*left), right: span_of(*right) }));
        assert(operands + seq![] + seq![] =~= operands);
    }
}

/// No diagnostic of `d` is a rewritten slot.
pub open spec fn no_rewritten_slot(d: Seq<Diagnostic>) -> bool {
    forall|i: int| 0 <= i < d.len() ==> !(#[trigger] d[i] is SlotAlreadySet)
}

proof fn lemma_no_rewritten_concat(a: Seq<Diagnostic>, b: Seq<Diagnostic>)
    requires
        no_rewritten_slot(a),
        no_rewritten_slot(b),
    ensures
        no_rewritten_slot(a + b),
{
    assert forall|i: int| 0 <= i < (a + b).len() implies !(#[trigger] (a + b)[i] is SlotAlreadySet) by {
        if i < a.len() {
            assert((a + b)[i] == a[i]);
        } else {
            assert((a + b)[i] == b[i - a.len()]);
        }
    }
}

proof fn lemma_list_fresh(elems: Seq<AstExpression>, n: int, locals: Seq<(Seq<char>, TypeModel)>, table: Seq<(String, ProgramType)>)
    requires
        forall|j: int| 0 <= j < elems.len() ==> unannotated(#[trigger] elems[j]),
    ensures
        no_rewritten_slot(list_diags(elems, n, locals, table)),
    decreases elems, n,
{
    if 0 < n <= elems.len() {
        lemma_list_fresh(elems, n - 1, locals, table);
        lemma_fresh_expression(elems[n - 1], locals, table);
        lemma_no_rewritten_concat(list_diags(elems, n - 1, locals, table), expr_diags(elems[n - 1], locals, table));
    }
}

proof fn lemma_fields_fresh(fields: Seq<(String, AstExpression)>, n: int, locals: Seq<(Seq<char>, TypeModel)>, table: Seq<(String, ProgramType)>)
    requires
        forall|j: int| 0 <= j < fields.len() ==> unannotated((#[trigger] fields[j]).1),
    ensures
        no_rewritten_slot(field_diags(fields, n, locals, table)),
    decreases fields, n,
{
    if 0 < n <= fields.len() {
        lemma_fields_fresh(fields, n - 1, locals, table);
        lemma_fresh_expression(fields[n - 1].1, locals, table);
        lemma_no_rewritten_concat(field_diags(fields, n - 1, locals, table), expr_diags(fields[n - 1].1, locals, table));
    }
}

/// Each type slot is written once: annotating an expression whose slots are all empty,
/// as the parser leaves them, never reports a slot written twice.
pub proof fn lemma_fresh_expression(e: AstExpression, locals: Seq<(Seq<char>, TypeModel)>, table: Seq<(String, ProgramType)>)
    requires
        unannotated(e),
    ensures
        no_rewritten_slot(expr_diags(e, locals, table)),
    decreases e,
{
    let d = expr_diags(e, locals, table);
    match e {
        AstExpression::ArrayLiteral { content, .. } => {
            lemma_list_fresh(content@, content@.len() as int, locals, table);
        },
        AstExpression::StructureLiteral { fields, .. } => {
            lemma_fields_fresh(fields@, fields@.len() as int, locals, table);
        },
        AstExpression::Invoke { arguments, .. } => {
            lemma_list_fresh(arguments@, arguments@.len() as int, locals, table);
        },
        AstExpression::Binary { left, right, .. } => {
            lemma_fresh_expression(*left, locals, table);
            lemma_fresh_expression(*right, locals, table);
            lemma_no_rewritten_concat(expr_diags(*left, locals, table), expr_diags(*right, locals, table));
        },
        AstExpression::Index { base, other, .. } => {
            lemma_fresh_expression(*base, locals, table);
            lemma_fresh_expression(*other, locals, table);
            lemma_no_rewritten_concat(expr_diags(*base, locals, table), expr_diags(*other, locals, table));
        },
        _ => {},
    }
    assert forall|i: int| 0 <= i < d.len() implies !(#[trigger] d[i] is SlotAlreadySet) by {
        match e {
            AstExpression::ArrayLiteral { content, .. } => {
                let l = list_diags(content@, content@.len() as int, locals, table);
                if i < l.len() {
                    assert(d[i] == l[i]);
                }
            },
            AstExpression::StructureLiteral { fields, .. } => {
                let l = field_diags(fields@, fields@.len() as int, locals, table);
                if i < l.len() {
                    assert(d[i] == l[i]);
                }
            },
            AstExpression::Invoke { arguments, .. } => {
                let l = list_diags(arguments@, arguments@.len() as int, locals, table);
                if i < l.len() {
                    assert(d[i] == l[i]);
                }
            },
            AstExpression::Binary { left, right, .. } => {
                let l = expr_diags(*left, locals, table) + expr_diags(*right, locals, table);
                if i < l.len() {
                    assert(d[i] == l[i]);
                }
            },
            AstExpression::Index { base, other, .. } => {
                let l = expr_diags(*base, locals, table) + expr_diags(*other, locals, table);
                if i < l.len() {
                    assert(d[i] == l[i]);
                }
            },
            _ => {},
        }
    }
}

} // verus!
