use vstd::prelude::*;

use crate::ast::{AstHeader, AstType, PathData};
use crate::span::Span;

verus! {

/// A problem found in the source, or in the annotator itself.
#[derive(Debug)]
pub enum Diagnostic {
    /// A variable or a call target that is not in scope.
    UnresolvedIdentifier { name: String, span: Span },
    /// Two types that had to agree do not.
    TypeMismatch { left: Span, right: Span },
    /// A form that annotation or lowering does not handle.
    UnsupportedConstruct { span: Span },
    /// A name declared twice, or a literal or call whose shape does not fit its declaration.
    ShapeConflict { name: String, span: Span },
    /// A type slot that was already written: a fault of the annotator, not of the source.
    SlotAlreadySet,
}

/// The declared shape of a named structure or function.
#[derive(Debug)]
pub enum ProgramType {
    Structure { name: String, fields: Vec<(String, AstType)> },
    Function { name: String, arguments: Vec<(String, AstType)>, return_type: AstType },
}

/// The type table: each declared name with its shape, in the order of declaration.
/// No name occurs twice.
#[derive(Debug)]
pub struct TypeInformation {
    pub names: Vec<(String, ProgramType)>,
}

/// The position of the last entry named `name`, or -1.
pub open spec fn last_position<T>(entries: Seq<(String, T)>, name: Seq<char>) -> int
    decreases entries.len(),
{
    if entries.len() == 0 {
        -1
    } else if entries.last().0@ == name {
        entries.len() - 1
    } else {
        last_position(entries.drop_last(), name)
    }
}

pub proof fn lemma_last_position_bounds<T>(entries: Seq<(String, T)>, name: Seq<char>)
    ensures
        -1 <= last_position(entries, name) < entries.len(),
        last_position(entries, name) >= 0 ==> entries[last_position(entries, name)].0@ == name,
        last_position(entries, name) == -1 ==> forall|j: int|
            0 <= j < entries.len() ==> #[trigger] entries[j].0@ != name,
    decreases entries.len(),
{
    if entries.len() > 0 && entries.last().0@ != name {
        lemma_last_position_bounds(entries.drop_last(), name);
        if last_position(entries, name) == -1 {
            assert forall|j: int| 0 <= j < entries.len() implies #[trigger] entries[j].0@ != name by {
                if j < entries.len() - 1 {
                    assert(entries[j] == entries.drop_last()[j]);
                }
            }
        }
    }
}

/// Where `name` stands among `entries`, searching from the end.
pub fn find_entry<T>(entries: &Vec<(String, T)>, name: &String) -> (r: Option<usize>)
    ensures
        match r {
            Some(i) => i as int == last_position(entries@, name@) && i < entries@.len(),
            None => last_position(entries@, name@) == -1,
        },
{
    let mut i: usize = entries.len();
    assert(entries@.subrange(0, i as int) =~= entries@);
    while i > 0
        invariant
            i <= entries@.len(),
            last_position(entries@, name@) == last_position(entries@.subrange(0, i as int), name@),
        decreases i,
    {
        let ghost prefix = entries@.subrange(0, i as int);
        assert(prefix.drop_last() =~= entries@.subrange(0, i - 1));
        if entries[i - 1].0 == *name {
            return Some(i - 1);
        }
        i = i - 1;
    }
    None
}

/// The entry of `entries` that `name` finds, if any.
pub open spec fn lookup<T>(entries: Seq<(String, T)>, name: Seq<char>) -> Option<T> {
    let p = last_position(entries, name);
    if p >= 0 {
        Some(entries[p].1)
    } else {
        None
    }
}

impl TypeInformation {
    /// An empty type table.
    pub fn new() -> (r: TypeInformation)
        ensures
            r.names@.len() == 0,
    {
        TypeInformation { names: Vec::new() }
    }

    /// No name is declared twice.
    pub open spec fn wf(&self) -> bool {
        forall|i: int, j: int|
            0 <= i < j < self.names@.len() ==> #[trigger] self.names@[i].0@ != #[trigger] self.names@[j].0@
    }

    /// The position of the shape declared under `name`, if any.
    pub fn position_of(&self, name: &String) -> (r: Option<usize>)
        ensures
            match r {
                Some(i) => i as int == last_position(self.names@, name@) && i < self.names@.len(),
                None => last_position(self.names@, name@) == -1,
            },
    {
        find_entry(&self.names, name)
    }
}

/// The shape that a declaration registers, as a relation on the header and a table entry:
/// a function with its parameters (name, type) in order and its return type, a structure
/// with its fields in order.
pub open spec fn registers(header: AstHeader, entry: (String, ProgramType)) -> bool {
    match header {
        AstHeader::Import(_) => false,
        AstHeader::Function { name, parameters, return_type, .. } => {
            &&& entry.0 == name.name
            &&& entry.1 matches ProgramType::Function { name: n, arguments, return_type: r }
            &&& n == name.name
            &&& r == return_type
            &&& arguments@.len() == parameters@.len()
            &&& forall|i: int|
                0 <= i < parameters@.len() ==> #[trigger] arguments@[i] == (parameters@[i].1, parameters@[i].0)
        },
        AstHeader::Struct { name, fields } => {
            &&& entry.0 == name.name
            &&& entry.1 matches ProgramType::Structure { name: n, fields: f }
            &&& n == name.name
            &&& f@ == fields@
        },
    }
}

/// Some declaration of `headers` registers `entry`.
pub open spec fn registered_by(headers: Seq<AstHeader>, entry: (String, ProgramType)) -> bool {
    exists|j: int| 0 <= j < headers.len() && #[trigger] registers(headers[j], entry)
}

/// The name a declaration registers under, if it registers one.
pub open spec fn declared_name(header: AstHeader) -> Option<PathData> {
    match header {
        AstHeader::Import(_) => None,
        AstHeader::Function { name, .. } => Some(name),
        AstHeader::Struct { name, .. } => Some(name),
    }
}

fn copy_fields(fields: &Vec<(String, AstType)>) -> (r: Vec<(String, AstType)>)
    ensures
        r@ == fields@,
{
    let mut r: Vec<(String, AstType)> = Vec::new();
    let mut i: usize = 0;
    while i < fields.len()
        invariant
            i <= fields@.len(),
            r@ == fields@.subrange(0, i as int),
        decreases fields@.len() - i,
    {
        r.push((fields[i].0.clone(), fields[i].1.duplicate()));
        i = i + 1;
        assert(r@ =~= fields@.subrange(0, i as int));
    }
    assert(r@ =~= fields@);
    r
}

fn swap_parameters(parameters: &Vec<(AstType, String)>) -> (r: Vec<(String, AstType)>)
    ensures
        r@.len() == parameters@.len(),
        forall|i: int| 0 <= i < parameters@.len() ==> #[trigger] r@[i] == (parameters@[i].1, parameters@[i].0),
{
    let mut r: Vec<(String, AstType)> = Vec::new();
    let mut i: usize = 0;
    while i < parameters.len()
        invariant
            i <= parameters@.len(),
            r@.len() == i,
            forall|j: int| 0 <= j < i ==> #[trigger] r@[j] == (parameters@[j].1, parameters@[j].0),
        decreases parameters@.len() - i,
    {
        r.push((parameters[i].1.clone(), parameters[i].0.duplicate()));
        i = i + 1;
    }
    r
}

impl AstHeader {
    /// Registers this declaration's shape in `info`. An import registers nothing; a name
    /// already in the table is a shape conflict, and the table keeps its first entry.
    pub fn gather_type_information(&self, info: &mut TypeInformation, diagnostics: &mut Vec<Diagnostic>)
        requires
            old(info).wf(),
        ensures
            final(info).wf(),
            match declared_name(*self) {
                None => *final(info) == *old(info) && final(diagnostics)@ == old(diagnostics)@,
                Some(p) => if lookup(old(info).names@, p.name@) is Some {
                    &&& *final(info) == *old(info)
                    &&& final(diagnostics)@ == old(diagnostics)@.push(
                        Diagnostic::ShapeConflict { name: p.name, span: p.token.span },
                    )
                } else {
                    &&& final(info).names@.len() == old(info).names@.len() + 1
                    &&& final(info).names@.drop_last() == old(info).names@
                    &&& registers(*self, final(info).names@.last())
                    &&& final(diagnostics)@ == old(diagnostics)@
                },
            },
    {
        let name = match self {
            AstHeader::Import(_) => {
                return;
            },
            AstHeader::Function { name, .. } => name,
            AstHeader::Struct { name, .. } => name,
        };
        proof {
            lemma_last_position_bounds(info.names@, name.name@);
        }
        if info.position_of(&name.name).is_some() {
            diagnostics.push(Diagnostic::ShapeConflict { name: name.name.clone(), span: name.token.span.duplicate() });
            return;
        }
        let shape = match self {
            AstHeader::Import(_) => {
                return;
            },
            AstHeader::Function { name, parameters, return_type, .. } => ProgramType::Function {
                name: name.name.clone(),
                arguments: swap_parameters(parameters),
                return_type: return_type.duplicate(),
            },
            AstHeader::Struct { name, fields } => ProgramType::Structure {
                name: name.name.clone(),
                fields: copy_fields(fields),
            },
        };
        let ghost before = info.names@;
        info.names.push((name.name.clone(), shape));
        proof {
            assert(info.names@.drop_last() =~= before);
            assert forall|i: int, j: int| 0 <= i < j < info.names@.len() implies
                #[trigger] info.names@[i].0@ != #[trigger] info.names@[j].0@ by {
                if j == before.len() {
                    assert(info.names@[i] == before[i]);
                }
            }
        }
    }
}

/// Some declaration among the first `n` registers under `name`.
pub open spec fn declared_before(headers: Seq<AstHeader>, n: int, name: Seq<char>) -> bool {
    exists|j: int| 0 <= j < n && #[trigger] declared_name(headers[j]) is Some && declared_name(headers[j])->0.name@ == name
}

/// `names` is the table built from the first `n` declarations: for each name, the shape
/// its first declaration registers, in the order of declaration.
pub open spec fn gathered(headers: Seq<AstHeader>, n: int, names: Seq<(String, ProgramType)>) -> bool
    decreases n,
{
    if n <= 0 || n > headers.len() {
        names.len() == 0
    } else {
        match declared_name(headers[n - 1]) {
            Some(p) => if declared_before(headers, n - 1, p.name@) {
                gathered(headers, n - 1, names)
            } else {
                names.len() >= 1 && registers(headers[n - 1], names.last()) && gathered(headers, n - 1, names.drop_last())
            },
            None => gathered(headers, n - 1, names),
        }
    }
}

/// What gathering the first `n` declarations reports: a shape conflict for each name
/// declared again.
pub open spec fn gather_diags(headers: Seq<AstHeader>, n: int) -> Seq<Diagnostic>
    decreases n,
{
    if 0 < n <= headers.len() {
        gather_diags(headers, n - 1) + match declared_name(headers[n - 1]) {
            Some(p) => if declared_before(headers, n - 1, p.name@) {
                seq![Diagnostic::ShapeConflict { name: p.name, span: p.token.span }]
            } else {
                seq![]
            },
            None => seq![],
        }
    } else {
        seq![]
    }
}

/// Builds the type table from a list of declarations, in order, without reading any
/// function body. Each declaration is registered as `gather_type_information` says.
pub fn gather_all(headers: &Vec<AstHeader>, diagnostics: &mut Vec<Diagnostic>) -> (r: TypeInformation)
    ensures
        r.wf(),
        forall|i: int| 0 <= i < r.names@.len() ==> registered_by(headers@, #[trigger] r.names@[i]),
        forall|j: int| 0 <= j < headers@.len() && (#[trigger] declared_name(headers@[j])) is Some
            ==> lookup(r.names@, declared_name(headers@[j])->0.name@) is Some,
        final(diagnostics)@ == old(diagnostics)@ + gather_diags(headers@, headers@.len() as int),
        gathered(headers@, headers@.len() as int, r.names@),
{
    let mut info = TypeInformation::new();
    let mut k: usize = 0;
    while k < headers.len()
        invariant
            k <= headers@.len(),
            info.wf(),
            forall|i: int| 0 <= i < info.names@.len() ==> registered_by(headers@, #[trigger] info.names@[i]),
            forall|j: int| 0 <= j < k && (#[trigger] declared_name(headers@[j])) is Some
                ==> lookup(info.names@, declared_name(headers@[j])->0.name@) is Some,
            forall|name: Seq<char>| #[trigger] lookup(info.names@, name) is Some ==> declared_before(headers@, k as int, name),
            diagnostics@ == old(diagnostics)@ + gather_diags(headers@, k as int),
            gathered(headers@, k as int, info.names@),
        decreases headers@.len() - k,
    {
        let ghost before = info.names@;
        headers[k].gather_type_information(&mut info, diagnostics);
        proof {
            assert forall|i: int| 0 <= i < info.names@.len() implies registered_by(headers@, #[trigger] info.names@[i]) by {
                if i < before.len() {
                    if info.names@.len() == before.len() + 1 {
                        assert(info.names@[i] == info.names@.drop_last()[i]);
                    }
                    assert(info.names@[i] == before[i]);
                    let w = choose|j: int| 0 <= j < headers@.len() && #[trigger] registers(headers@[j], before[i]);
                    assert(registers(headers@[w], info.names@[i]));
                } else {
                    assert(registers(headers@[k as int], info.names@[i]));
                    assert(registered_by(headers@, info.names@[i]));
                }
            }
            assert forall|j: int| 0 <= j <= k && (#[trigger] declared_name(headers@[j])) is Some
                implies lookup(info.names@, declared_name(headers@[j])->0.name@) is Some by {
                let n = declared_name(headers@[j])->0.name@;
                lemma_last_position_bounds(before, n);
                lemma_last_position_bounds(info.names@, n);
                if info.names@.len() == before.len() + 1 {
                    let p = last_position(before, n);
                    if p >= 0 {
                        assert(info.names@[p] == before[p]);
                        lemma_last_position_keeps(before, info.names@.last(), n);
                    }
                }
            }
        }
        proof {
            let h = headers@[k as int];
            if info.names@.len() == before.len() + 1 {
                assert(info.names@.drop_last() == before);
            }
            lemma_last_position_bounds(before, match declared_name(h) { Some(p) => p.name@, None => seq![] });
            match declared_name(h) {
                Some(p) => {
                    if lookup(before, p.name@) is Some {
                        assert(declared_before(headers@, k as int, p.name@));
                    } else {
                        if declared_before(headers@, k as int, p.name@) {
                            let j = choose|j: int| 0 <= j < k && #[trigger] declared_name(headers@[j]) is Some
                                && declared_name(headers@[j])->0.name@ == p.name@;
                            assert(lookup(before, declared_name(headers@[j])->0.name@) is Some);
                        }
                    }
                },
                None => {},
            }
            assert forall|name: Seq<char>| #[trigger] lookup(info.names@, name) is Some implies declared_before(headers@, k + 1, name) by {
                lemma_last_position_bounds(info.names@, name);
                lemma_last_position_bounds(before, name);
                if info.names@.len() == before.len() + 1 && last_position(info.names@, name) == before.len() {
                    assert(registers(h, info.names@.last()));
                    assert(declared_name(headers@[k as int]) is Some);
                } else {
                    if lookup(before, name) is Some {
                        let j = choose|j: int| 0 <= j < k && #[trigger] declared_name(headers@[j]) is Some
                            && declared_name(headers@[j])->0.name@ == name;
                        assert(declared_before(headers@, k + 1, name));
                    } else {
                        lemma_lookup_extends(before, info.names@, name);
                    }
                }
            }
        }
        k = k + 1;
    }
    info
}

proof fn lemma_lookup_extends(before: Seq<(String, ProgramType)>, after: Seq<(String, ProgramType)>, name: Seq<char>)
    requires
        after == before || (after.len() == before.len() + 1 && after.drop_last() == before),
        lookup(before, name) is None,
        lookup(after, name) is Some,
    ensures
        after.len() == before.len() + 1 && after.last().0@ == name,
{
    if after.len() == before.len() + 1 && after.last().0@ != name {
        assert(last_position(after, name) == last_position(before, name));
    }
}

proof fn lemma_last_position_keeps<T>(entries: Seq<(String, T)>, extra: (String, T), name: Seq<char>)
    requires
        last_position(entries, name) >= 0,
    ensures
        last_position(entries.push(extra), name) >= 0,
{
    assert(entries.push(extra).drop_last() =~= entries);
}

} // verus!
