//! The DSL front-end: an append-only, index-addressed memory of typed
//! values plus the ordered trace of the operations that produced them.
//!
//! Client code registers data types and functions, allocates inputs,
//! constants and hints, and applies functions; every operation is recorded
//! so that the compiler can replay it.

use vstd::prelude::*;
use crate::data_type::{DataTypeMetadata, DataTypeRegistry};
use crate::element::{Element, ElementType, ElementV};
use crate::errors::{DslErrV, DslError};
use crate::functions::{
    AcceptableFunctionMetadata, FuncMetaV, FunctionGenerator, FunctionRegistry,
};
use crate::memory::{MemoryEntry, MemoryEntryV};
use crate::memory_map::{imap_get, imap_insert, imap_new, imap_view, MemoryStore};
use crate::options::{Options, OptionsV};
use crate::strutil::string_eq;
use vstd::slice::slice_index_get;

verus! {

/// One recorded operation.  Input allocations are not recorded; the first
/// `num_inputs` memory indices are the inputs.
#[derive(Debug)]
pub enum TraceEntry {
    FunctionCall(String, Vec<usize>),
    FunctionCallWithOptions(String, Vec<usize>, Options),
    AllocatedConstant(usize),
    AllocatedHint(usize),
}

/// The mathematical value of a [`TraceEntry`].
pub enum TraceEntryV {
    FunctionCall(Seq<char>, Seq<usize>),
    FunctionCallWithOptions(Seq<char>, Seq<usize>, OptionsV),
    AllocatedConstant(usize),
    AllocatedHint(usize),
}

impl View for TraceEntry {
    type V = TraceEntryV;

    open spec fn view(&self) -> TraceEntryV {
        match self {
            TraceEntry::FunctionCall(n, i) => TraceEntryV::FunctionCall(n@, i@),
            TraceEntry::FunctionCallWithOptions(n, i, o) => TraceEntryV::FunctionCallWithOptions(
                n@,
                i@,
                o@,
            ),
            TraceEntry::AllocatedConstant(i) => TraceEntryV::AllocatedConstant(*i),
            TraceEntry::AllocatedHint(i) => TraceEntryV::AllocatedHint(*i),
        }
    }
}

impl DeepView for TraceEntry {
    type V = TraceEntryV;

    open spec fn deep_view(&self) -> TraceEntryV {
        self.view()
    }
}

/// A complete DSL instance.
pub struct DSL<G> {
    pub data_type_registry: DataTypeRegistry,
    pub function_registry: FunctionRegistry<G>,
    pub memory: MemoryStore,
    pub memory_last_idx: usize,
    pub trace: Vec<TraceEntry>,
    pub num_inputs: Option<usize>,
    pub hint: Vec<MemoryEntry>,
    pub output: Vec<usize>,
}

/// The mathematical value of a [`DSL`].
pub struct DslV<G> {
    pub types: Map<Seq<char>, DataTypeMetadata>,
    pub functions: Map<Seq<char>, FuncMetaV<G>>,
    pub memory: Map<usize, MemoryEntryV>,
    pub memory_last_idx: usize,
    pub trace: Seq<TraceEntryV>,
    pub num_inputs: Option<usize>,
    pub hint: Seq<MemoryEntryV>,
    pub output: Seq<usize>,
}

/// The entry views of a raw memory map.
pub open spec fn mem_views(m: Map<usize, MemoryEntry>) -> Map<usize, MemoryEntryV> {
    Map::new(|k: usize| m.contains_key(k), |k: usize| m[k]@)
}

/// Inserting an entry inserts its view.
pub proof fn lemma_mem_views_insert(m: Map<usize, MemoryEntry>, k: usize, v: MemoryEntry)
    ensures
        mem_views(m.insert(k, v)) == mem_views(m).insert(k, v@),
{
    assert(mem_views(m.insert(k, v)) =~= mem_views(m).insert(k, v@));
}

impl<G> View for DSL<G> {
    type V = DslV<G>;

    open spec fn view(&self) -> DslV<G> {
        DslV {
            types: self.data_type_registry@,
            functions: self.function_registry@,
            memory: mem_views(imap_view(self.memory)),
            memory_last_idx: self.memory_last_idx,
            trace: self.trace.deep_view(),
            num_inputs: self.num_inputs,
            hint: self.hint.deep_view(),
            output: self.output@,
        }
    }
}

/// The DSL after the input count locks: allocating a constant or a hint, or
/// executing a function, fixes the number of inputs.
pub open spec fn lock_inputs<G>(d: DslV<G>) -> DslV<G> {
    if d.num_inputs is None {
        DslV { num_inputs: Some(d.memory_last_idx), ..d }
    } else {
        d
    }
}

/// Resolves and type-checks call arguments from position `i` on: each must
/// name an existing memory cell whose data type equals the declared one.
pub open spec fn check_inputs(
    mem: Map<usize, MemoryEntryV>,
    idxs: Seq<usize>,
    formals: Seq<crate::functions::FormalParamV>,
    i: int,
) -> Result<Seq<MemoryEntryV>, DslErrV>
    decreases idxs.len() - i,
{
    if i < 0 || i >= idxs.len() {
        Ok(Seq::empty())
    } else if !mem.contains_key(idxs[i]) {
        Err(DslErrV::CannotReadAs)
    } else if mem[idxs[i]].data_type != formals[i].data_type {
        Err(DslErrV::InputTypeMismatch)
    } else {
        match check_inputs(mem, idxs, formals, i + 1) {
            Ok(rest) => Ok(seq![mem[idxs[i]]] + rest),
            Err(e) => Err(e),
        }
    }
}

/// Validates the trace generator's outputs from position `i` on: each must
/// carry the declared type name, the name must be registered, and the data
/// must match the registered schema.
pub open spec fn check_outputs(
    types: Map<Seq<char>, DataTypeMetadata>,
    declared: Seq<Seq<char>>,
    elems: Seq<MemoryEntryV>,
    i: int,
) -> Option<DslErrV>
    decreases elems.len() - i,
{
    if i < 0 || i >= elems.len() {
        None
    } else if elems[i].data_type != declared[i] {
        Some(DslErrV::OutputTypeMismatch)
    } else if !types.contains_key(declared[i]) {
        Some(DslErrV::DataTypeNotRegistered)
    } else if !elems[i].data.matches_type(types[declared[i]].element_type) {
        Some(DslErrV::OutputDataMismatch)
    } else {
        check_outputs(types, declared, elems, i + 1)
    }
}

/// Inserts entries at consecutive indices starting at `base`.
pub open spec fn insert_entries(
    mem: Map<usize, MemoryEntryV>,
    base: int,
    elems: Seq<MemoryEntryV>,
) -> Map<usize, MemoryEntryV>
    decreases elems.len(),
{
    if elems.len() == 0 {
        mem
    } else {
        insert_entries(mem.insert(base as usize, elems.first()), base + 1, elems.drop_first())
    }
}

/// The exact error an allocation reports, if any: the first failing check,
/// in order — an unregistered type, a value that fails the schema, then an
/// exhausted index counter or an occupied slot.  `None` means the
/// allocation is owed success.
pub open spec fn alloc_err<G>(d: DslV<G>, name: Seq<char>, data: ElementV) -> Option<DslErrV> {
    if !d.types.contains_key(name) {
        Some(DslErrV::DataTypeNotRegistered)
    } else if !data.matches_type(d.types[name].element_type) {
        Some(DslErrV::DataTypeMismatch)
    } else if d.memory_last_idx == usize::MAX || d.memory.contains_key(d.memory_last_idx) {
        Some(DslErrV::MemoryCorrupted)
    } else {
        None
    }
}

/// The empty options bag.
pub open spec fn no_options() -> OptionsV {
    OptionsV { entries: Seq::empty() }
}

/// The outcome of applying a registered function: the next DSL value and
/// the new output indices, or the exact error.  `opts` is the per-call bag
/// of an options-accepting application, `None` for a plain one.
pub open spec fn execute_spec<G: FunctionGenerator>(
    d: DslV<G>,
    name: Seq<char>,
    idxs: Seq<usize>,
    opts: Option<OptionsV>,
) -> Result<(DslV<G>, Seq<usize>), DslErrV> {
    let d1 = lock_inputs(d);
    if !d1.functions.contains_key(name) {
        Err(DslErrV::FunctionNotRegistered)
    } else {
        let m = d1.functions[name];
        if opts is Some && !m.accepts_options {
            Err(DslErrV::OptionsNotAccepted)
        } else if m.input.len() != idxs.len() {
            Err(DslErrV::InputArityMismatch)
        } else {
            match check_inputs(d1.memory, idxs, m.input, 0) {
                Err(e) => Err(e),
                Ok(resolved) => {
                    let outcome = match opts {
                        Some(o) => m.generator.trace_with_options_spec(resolved, o),
                        None => if m.accepts_options {
                            m.generator.trace_with_options_spec(resolved, no_options())
                        } else {
                            m.generator.trace_spec(resolved)
                        },
                    };
                    match outcome {
                        None => Err(DslErrV::FunctionExecutionFailed),
                        Some(fo) => if fo.new_elements.len() != m.output.len() {
                            Err(DslErrV::OutputArityMismatch)
                        } else {
                            match check_outputs(d1.types, m.output, fo.new_elements, 0) {
                                Some(e) => Err(e),
                                None => if fo.new_elements.len() > usize::MAX
                                    - d1.memory_last_idx {
                                    Err(DslErrV::MemoryCorrupted)
                                } else {
                                    let entry = match opts {
                                        Some(o) => TraceEntryV::FunctionCallWithOptions(
                                            name,
                                            idxs,
                                            o,
                                        ),
                                        None => TraceEntryV::FunctionCall(name, idxs),
                                    };
                                    Ok(
                                        (
                                            DslV {
                                                memory: insert_entries(
                                                    d1.memory,
                                                    d1.memory_last_idx as int,
                                                    fo.new_elements,
                                                ),
                                                memory_last_idx: (d1.memory_last_idx
                                                    + fo.new_elements.len()) as usize,
                                                trace: d1.trace.push(entry),
                                                hint: d1.hint + fo.new_hints,
                                                ..d1
                                            },
                                            Seq::new(
                                                fo.new_elements.len(),
                                                |i: int| (d1.memory_last_idx + i) as usize,
                                            ),
                                        ),
                                    )
                                },
                            }
                        },
                    }
                },
            }
        }
    }
}

impl<G: FunctionGenerator> DSL<G> {
    /// A new, empty DSL.
    pub fn new() -> (r: Self)
        ensures
            r@.types == Map::<Seq<char>, DataTypeMetadata>::empty(),
            r@.functions == Map::<Seq<char>, FuncMetaV<G>>::empty(),
            r@.memory == Map::<usize, MemoryEntryV>::empty(),
            r@.memory_last_idx == 0,
            r@.trace == Seq::<TraceEntryV>::empty(),
            r@.num_inputs is None,
            r@.hint == Seq::<MemoryEntryV>::empty(),
            r@.output == Seq::<usize>::empty(),
    {
        let r = DSL {
            data_type_registry: DataTypeRegistry::new(),
            function_registry: FunctionRegistry::new(),
            memory: imap_new(),
            memory_last_idx: 0,
            trace: Vec::new(),
            num_inputs: None,
            hint: Vec::new(),
            output: Vec::new(),
        };
        proof {
            assert(r@.memory =~= Map::<usize, MemoryEntryV>::empty());
            assert(r@.trace =~= Seq::<TraceEntryV>::empty());
            assert(r@.hint =~= Seq::<MemoryEntryV>::empty());
        }
        r
    }

    /// Registers a data type under a name.
    pub fn add_data_type(&mut self, name: &str, element_type: ElementType)
        ensures
            final(self)@ == (DslV {
                types: old(self)@.types.insert(
                    name@,
                    DataTypeMetadata { element_type, ref_only: false },
                ),
                ..old(self)@
            }),
    {
        self.data_type_registry.insert(name, DataTypeMetadata { element_type, ref_only: false });
    }

    /// Registers a reference-only data type under a name.
    pub fn add_ref_only_data_type(&mut self, name: &str, element_type: ElementType)
        ensures
            final(self)@ == (DslV {
                types: old(self)@.types.insert(
                    name@,
                    DataTypeMetadata { element_type, ref_only: true },
                ),
                ..old(self)@
            }),
    {
        self.data_type_registry.insert(name, DataTypeMetadata { element_type, ref_only: true });
    }

    /// Registers a function under a name.
    pub fn add_function(&mut self, name: &str, meta: AcceptableFunctionMetadata<G>)
        ensures
            final(self)@ == (DslV {
                functions: old(self)@.functions.insert(name@, meta@),
                ..old(self)@
            }),
    {
        self.function_registry.insert(name, meta);
    }

    /// Declares the program's outputs: memory indices, in order, repetitions
    /// legal and significant.
    pub fn set_program_output(&mut self, output: Vec<usize>)
        ensures
            final(self)@ == (DslV { output: output@, ..old(self)@ }),
    {
        self.output = output;
    }

    /// Allocates the next memory index for a typed value.
    fn alloc_entry(&mut self, data_type: &str, data: Element) -> (r: Result<usize, DslError>)
        ensures
            match r {
                Ok(idx) => {
                    &&& alloc_err(old(self)@, data_type@, data@) is None
                    &&& idx == old(self).memory_last_idx
                    &&& final(self)@ == (DslV {
                        memory: old(self)@.memory.insert(
                            idx,
                            MemoryEntryV { data_type: data_type@, data: data@, description: None },
                        ),
                        memory_last_idx: (idx + 1) as usize,
                        ..old(self)@
                    })
                },
                Err(e) => final(self)@ == old(self)@ && alloc_err(old(self)@, data_type@, data@)
                    == Some(e@),
            },
    {
        let meta_opt = self.data_type_registry.get(data_type);
        match meta_opt {
            None => Err(DslError::DataTypeNotRegistered),
            Some(meta) => {
                if !data.match_type(&meta.element_type) {
                    Err(DslError::DataTypeMismatch)
                } else if self.memory_last_idx == usize::MAX {
                    Err(DslError::MemoryCorrupted)
                } else {
                    let idx = self.memory_last_idx;
                    let present = imap_get(&self.memory, idx);
                    if present.is_some() {
                        Err(DslError::MemoryCorrupted)
                    } else {
                        let entry = MemoryEntry::new(data_type, data);
                        proof {
                            lemma_mem_views_insert(imap_view(self.memory), idx, entry);
                        }
                        imap_insert(&mut self.memory, idx, entry);
                        self.memory_last_idx = idx + 1;
                        Ok(idx)
                    }
                }
            },
        }
    }

    /// Allocates an input.  Fails after any execution or after any
    /// allocation of a constant or a hint.
    pub fn alloc_input(&mut self, data_type: &str, data: Element) -> (r: Result<usize, DslError>)
        ensures
            old(self).num_inputs is Some ==> r is Err && final(self)@ == old(self)@ && (r
                matches Err(e) && e@ == DslErrV::InputAfterLock),
            old(self).num_inputs is None ==> match r {
                Ok(idx) => {
                    &&& alloc_err(old(self)@, data_type@, data@) is None
                    &&& idx == old(self).memory_last_idx
                    &&& final(self)@ == (DslV {
                        memory: old(self)@.memory.insert(
                            idx,
                            MemoryEntryV { data_type: data_type@, data: data@, description: None },
                        ),
                        memory_last_idx: (idx + 1) as usize,
                        ..old(self)@
                    })
                },
                Err(e) => final(self)@ == old(self)@ && alloc_err(old(self)@, data_type@, data@)
                    == Some(e@),
            },
    {
        if self.num_inputs.is_some() {
            Err(DslError::InputAfterLock)
        } else {
            self.alloc_entry(data_type, data)
        }
    }

    /// Allocates a constant: a literal the emitted program pushes at
    /// execution time.  Locks the input count.
    pub fn alloc_constant(&mut self, data_type: &str, data: Element) -> (r: Result<
        usize,
        DslError,
    >)
        ensures
            match r {
                Ok(idx) => {
                    &&& alloc_err(lock_inputs(old(self)@), data_type@, data@) is None
                    &&& idx == old(self).memory_last_idx
                    &&& final(self)@ == (DslV {
                        memory: lock_inputs(old(self)@).memory.insert(
                            idx,
                            MemoryEntryV { data_type: data_type@, data: data@, description: None },
                        ),
                        memory_last_idx: (idx + 1) as usize,
                        trace: lock_inputs(old(self)@).trace.push(
                            TraceEntryV::AllocatedConstant(idx),
                        ),
                        ..lock_inputs(old(self)@)
                    })
                },
                Err(e) => final(self)@ == lock_inputs(old(self)@) && alloc_err(
                    lock_inputs(old(self)@),
                    data_type@,
                    data@,
                ) == Some(e@),
            },
    {
        if self.num_inputs.is_none() {
            self.num_inputs = Some(self.memory_last_idx);
        }
        proof {
            assert(self@ == lock_inputs(old(self)@));
        }
        let idx = match self.alloc_entry(data_type, data) {
            Ok(idx) => idx,
            Err(e) => {
                return Err(e);
            },
        };
        self.trace.push(TraceEntry::AllocatedConstant(idx));
        proof {
            assert(self.trace.deep_view() =~= old(self).trace.deep_view().push(
                TraceEntryV::AllocatedConstant(idx),
            ));
        }
        Ok(idx)
    }

    /// Allocates a hint: a value the executor supplies on the auxiliary
    /// stack at runtime; the emitted program drains it at this point.
    /// Locks the input count.
    pub fn alloc_hint(&mut self, data_type: &str, data: Element) -> (r: Result<usize, DslError>)
        ensures
            match r {
                Ok(idx) => {
                    &&& alloc_err(lock_inputs(old(self)@), data_type@, data@) is None
                    &&& idx == old(self).memory_last_idx
                    &&& final(self)@ == (DslV {
                        memory: lock_inputs(old(self)@).memory.insert(
                            idx,
                            MemoryEntryV { data_type: data_type@, data: data@, description: None },
                        ),
                        memory_last_idx: (idx + 1) as usize,
                        trace: lock_inputs(old(self)@).trace.push(TraceEntryV::AllocatedHint(idx)),
                        ..lock_inputs(old(self)@)
                    })
                },
                Err(e) => final(self)@ == lock_inputs(old(self)@) && alloc_err(
                    lock_inputs(old(self)@),
                    data_type@,
                    data@,
                ) == Some(e@),
            },
    {
        if self.num_inputs.is_none() {
            self.num_inputs = Some(self.memory_last_idx);
        }
        proof {
            assert(self@ == lock_inputs(old(self)@));
        }
        let idx = match self.alloc_entry(data_type, data) {
            Ok(idx) => idx,
            Err(e) => {
                return Err(e);
            },
        };
        self.trace.push(TraceEntry::AllocatedHint(idx));
        proof {
            assert(self.trace.deep_view() =~= old(self).trace.deep_view().push(
                TraceEntryV::AllocatedHint(idx),
            ));
        }
        Ok(idx)
    }

    /// Reads a memory cell as a single number.
    pub fn get_num(&self, idx: usize) -> (r: Result<i32, DslError>)
        ensures
            match r {
                Ok(v) => self@.memory.contains_key(idx) && self@.memory[idx].data
                    == ElementV::Num(v),
                Err(e) => e@ == DslErrV::CannotReadAs && (!self@.memory.contains_key(idx) || !(
                self@.memory[idx].data is Num)),
            },
    {
        match imap_get(&self.memory, idx) {
            Some(entry) => match &entry.data {
                Element::Num(v) => Ok(*v),
                _ => Err(DslError::CannotReadAs),
            },
            None => Err(DslError::CannotReadAs),
        }
    }

    /// Reads a memory cell as a vector of numbers.
    pub fn get_many_num<'a>(&'a self, idx: usize) -> (r: Result<&'a [i32], DslError>)
        ensures
            match r {
                Ok(v) => self@.memory.contains_key(idx) && self@.memory[idx].data
                    == ElementV::ManyNum(v@),
                Err(e) => e@ == DslErrV::CannotReadAs && (!self@.memory.contains_key(idx) || !(
                self@.memory[idx].data is ManyNum)),
            },
    {
        match imap_get(&self.memory, idx) {
            Some(entry) => match &entry.data {
                Element::ManyNum(v) => Ok(v.as_slice()),
                _ => Err(DslError::CannotReadAs),
            },
            None => Err(DslError::CannotReadAs),
        }
    }

    /// Reads a memory cell as a single byte string.
    pub fn get_str<'a>(&'a self, idx: usize) -> (r: Result<&'a [u8], DslError>)
        ensures
            match r {
                Ok(v) => self@.memory.contains_key(idx) && self@.memory[idx].data
                    == ElementV::Str(v@),
                Err(e) => e@ == DslErrV::CannotReadAs && (!self@.memory.contains_key(idx) || !(
                self@.memory[idx].data is Str)),
            },
    {
        match imap_get(&self.memory, idx) {
            Some(entry) => match &entry.data {
                Element::Str(v) => Ok(v.as_slice()),
                _ => Err(DslError::CannotReadAs),
            },
            None => Err(DslError::CannotReadAs),
        }
    }

    /// Reads a memory cell as a vector of byte strings.
    pub fn get_many_str<'a>(&'a self, idx: usize) -> (r: Result<&'a [Vec<u8>], DslError>)
        ensures
            match r {
                Ok(v) => self@.memory.contains_key(idx) && self@.memory[idx].data
                    == ElementV::ManyStr(v.deep_view()),
                Err(e) => e@ == DslErrV::CannotReadAs && (!self@.memory.contains_key(idx) || !(
                self@.memory[idx].data is ManyStr)),
            },
    {
        match imap_get(&self.memory, idx) {
            Some(entry) => match &entry.data {
                Element::ManyStr(v) => Ok(v.as_slice()),
                _ => Err(DslError::CannotReadAs),
            },
            None => Err(DslError::CannotReadAs),
        }
    }

    /// Sets the description of a memory cell.
    pub fn set_name(&mut self, idx: usize, name: &str) -> (r: Result<(), DslError>)
        ensures
            match r {
                Ok(()) => old(self)@.memory.contains_key(idx) && final(self)@ == (DslV {
                    memory: old(self)@.memory.insert(
                        idx,
                        MemoryEntryV { description: Some(name@), ..old(self)@.memory[idx] },
                    ),
                    ..old(self)@
                }),
                Err(e) => e@ == DslErrV::CannotReadAs && !old(self)@.memory.contains_key(idx)
                    && final(self)@ == old(self)@,
            },
    {
        let entry = match imap_get(&self.memory, idx) {
            Some(entry) => entry,
            None => {
                return Err(DslError::CannotReadAs);
            },
        };
        let updated = MemoryEntry {
            data_type: entry.data_type.clone(),
            data: entry.data.clone(),
            description: Some(name.to_owned()),
        };
        proof {
            lemma_mem_views_insert(imap_view(self.memory), idx, updated);
        }
        imap_insert(&mut self.memory, idx, updated);
        Ok(())
    }

    /// Applies a registered function: validates arity and per-position
    /// types, runs the trace generator, allocates its outputs in declared
    /// order, and appends the call to the trace.
    pub fn execute(&mut self, function_name: &str, input_idxs: &[usize]) -> (r: Result<
        Vec<usize>,
        DslError,
    >)
        ensures
            match r {
                Ok(outs) => execute_spec(old(self)@, function_name@, input_idxs@, None::<OptionsV>)
                    == Ok::<(DslV<G>, Seq<usize>), DslErrV>((final(self)@, outs@)),
                Err(e) => execute_spec(old(self)@, function_name@, input_idxs@, None::<OptionsV>)
                    == Err::<(DslV<G>, Seq<usize>), DslErrV>(e@) && final(self)@ == lock_inputs(
                    old(self)@,
                ),
            },
    {
        self.execute_inner(function_name, input_idxs, None)
    }

    /// As [`Self::execute`], with a per-call options bag; fails if the
    /// function did not declare an options-accepting generator.
    pub fn execute_with_options(
        &mut self,
        function_name: &str,
        input_idxs: &[usize],
        options: Options,
    ) -> (r: Result<Vec<usize>, DslError>)
        ensures
            match r {
                Ok(outs) => execute_spec(
                    old(self)@,
                    function_name@,
                    input_idxs@,
                    Some(options@),
                ) == Ok::<(DslV<G>, Seq<usize>), DslErrV>((final(self)@, outs@)),
                Err(e) => execute_spec(old(self)@, function_name@, input_idxs@, Some(options@))
                    == Err::<(DslV<G>, Seq<usize>), DslErrV>(e@) && final(self)@ == lock_inputs(
                    old(self)@,
                ),
            },
    {
        self.execute_inner(function_name, input_idxs, Some(options))
    }

    /// The shared body of the two application paths.
    fn execute_inner(
        &mut self,
        function_name: &str,
        input_idxs: &[usize],
        options: Option<Options>,
    ) -> (r: Result<Vec<usize>, DslError>)
        ensures
            match r {
                Ok(outs) => execute_spec(
                    old(self)@,
                    function_name@,
                    input_idxs@,
                    (match options {
                        Some(o) => Some(o@),
                        None => None,
                    }),
                ) == Ok::<(DslV<G>, Seq<usize>), DslErrV>((final(self)@, outs@)),
                Err(e) => execute_spec(
                    old(self)@,
                    function_name@,
                    input_idxs@,
                    (match options {
                        Some(o) => Some(o@),
                        None => None,
                    }),
                ) == Err::<(DslV<G>, Seq<usize>), DslErrV>(e@) && final(self)@ == lock_inputs(
                    old(self)@,
                ),
            },
    {
        let ghost opts_v: Option<OptionsV> = match &options {
            Some(o) => Some(o@),
            None => None,
        };
        if self.num_inputs.is_none() {
            self.num_inputs = Some(self.memory_last_idx);
        }
        proof {
            assert(self@ == lock_inputs(old(self)@));
        }
        let ghost d1 = self@;
        let meta_enum = match self.function_registry.get(function_name) {
            Some(m) => m,
            None => {
                return Err(DslError::FunctionNotRegistered);
            },
        };
        let (meta, accepts) = match meta_enum {
            AcceptableFunctionMetadata::FunctionWithoutOptions(m) => (m, false),
            AcceptableFunctionMetadata::FunctionWithOptions(m) => (m, true),
        };
        if options.is_some() && !accepts {
            return Err(DslError::OptionsNotAccepted);
        }
        if meta.input.len() != input_idxs.len() {
            return Err(DslError::InputArityMismatch);
        }
        let resolved = match resolve_inputs_exec(&self.memory, input_idxs, &meta.input) {
            Ok(v) => v,
            Err(e) => {
                return Err(e);
            },
        };
        let mut fo = if accepts {
            let r = match &options {
                Some(o) => meta.generator.trace_with_options(&resolved, o),
                None => {
                    let empty = Options::new();
                    proof {
                        assert(empty@ == no_options());
                    }
                    meta.generator.trace_with_options(&resolved, &empty)
                },
            };
            match r {
                Ok(fo) => fo,
                Err(msg) => {
                    return Err(DslError::FunctionExecutionFailed(msg));
                },
            }
        } else {
            match meta.generator.trace(&resolved) {
                Ok(fo) => fo,
                Err(msg) => {
                    return Err(DslError::FunctionExecutionFailed(msg));
                },
            }
        };
        let ghost fo_v = fo@;
        if fo.new_elements.len() != meta.output.len() {
            return Err(DslError::OutputArityMismatch);
        }
        if let Some(e) = validate_outputs(&self.data_type_registry, &meta.output, &fo.new_elements) {
            return Err(e);
        }
        if fo.new_elements.len() > usize::MAX - self.memory_last_idx {
            return Err(DslError::MemoryCorrupted);
        }
        let ghost base = self.memory_last_idx as int;
        self.hint.append(&mut fo.new_hints);
        proof {
            assert(self.hint.deep_view() =~= d1.hint + fo_v.new_hints);
        }
        let outputs = insert_output_entries(&mut self.memory, &mut self.memory_last_idx, &fo.new_elements);
        let name_string = function_name.to_owned();
        let idx_vec = copy_idxs(input_idxs);
        match options {
            Some(o) => {
                self.trace.push(TraceEntry::FunctionCallWithOptions(name_string, idx_vec, o));
            },
            None => {
                self.trace.push(TraceEntry::FunctionCall(name_string, idx_vec));
            },
        }
        proof {
            let spec_r = execute_spec(old(self)@, function_name@, input_idxs@, opts_v);
            let entry_v: TraceEntryV = match opts_v {
                Some(o) => TraceEntryV::FunctionCallWithOptions(function_name@, input_idxs@, o),
                None => TraceEntryV::FunctionCall(function_name@, input_idxs@),
            };
            assert(self.trace.deep_view() =~= d1.trace.push(entry_v));
            assert(spec_r is Ok);
            assert(self@.memory == spec_r->Ok_0.0.memory);
            assert(self@.hint == spec_r->Ok_0.0.hint);
            assert(self@.trace == spec_r->Ok_0.0.trace);
            assert(self@ == spec_r->Ok_0.0);
            assert(outputs@ =~= spec_r->Ok_0.1);
        }
        Ok(outputs)
    }
}

/// Resolves and type-checks the call arguments against the declared
/// formals, in argument order.
fn resolve_inputs_exec(
    mem: &MemoryStore,
    idxs: &[usize],
    formals: &Vec<crate::functions::FormalParam>,
) -> (r: Result<Vec<MemoryEntry>, DslError>)
    requires
        idxs@.len() == formals@.len(),
    ensures
        match r {
            Ok(v) => check_inputs(mem_views(imap_view(*mem)), idxs@, formals.deep_view(), 0)
                == Ok::<Seq<MemoryEntryV>, DslErrV>(v.deep_view()),
            Err(e) => check_inputs(mem_views(imap_view(*mem)), idxs@, formals.deep_view(), 0)
                == Err::<Seq<MemoryEntryV>, DslErrV>(e@),
        },
{
    let ghost mv = mem_views(imap_view(*mem));
    let ghost fv = formals.deep_view();
    let mut resolved: Vec<MemoryEntry> = Vec::new();
    let mut i: usize = 0;
    while i < idxs.len()
        invariant
            i <= idxs.len(),
            idxs@.len() == formals@.len(),
            mv == mem_views(imap_view(*mem)),
            fv == formals.deep_view(),
            fv.len() == formals@.len(),
            resolved.deep_view().len() == i,
            check_inputs(mv, idxs@, fv, 0) == (match check_inputs(mv, idxs@, fv, i as int) {
                Ok(rest) => Ok::<Seq<MemoryEntryV>, DslErrV>(resolved.deep_view() + rest),
                Err(e) => Err::<Seq<MemoryEntryV>, DslErrV>(e),
            }),
        decreases idxs.len() - i,
    {
        let idx = *slice_index_get(idxs, i);
        let entry = match imap_get(mem, idx) {
            Some(e) => e,
            None => {
                return Err(DslError::CannotReadAs);
            },
        };
        if !string_eq(&entry.data_type, &formals[i].data_type) {
            return Err(DslError::InputTypeMismatch);
        }
        let ghost prev_dv = resolved.deep_view();
        resolved.push(entry.clone());
        i = i + 1;
        proof {
            assert(resolved.deep_view() =~= prev_dv.push(mv[idx]));
            let ci = check_inputs(mv, idxs@, fv, i as int);
            if ci is Ok {
                let rest = ci->Ok_0;
                assert(check_inputs(mv, idxs@, fv, i as int - 1) == Ok::<Seq<MemoryEntryV>, DslErrV>(
                    seq![mv[idx]] + rest,
                ));
                assert(prev_dv + (seq![mv[idx]] + rest) =~= resolved.deep_view() + rest);
            }
        }
    }
    proof {
        assert(check_inputs(mv, idxs@, fv, i as int) == Ok::<Seq<MemoryEntryV>, DslErrV>(
            Seq::<MemoryEntryV>::empty(),
        ));
        assert(resolved.deep_view() + Seq::<MemoryEntryV>::empty() =~= resolved.deep_view());
    }
    Ok(resolved)
}

/// Validates the trace generator's outputs against the declared output
/// types and the data-type registry, in output order.
fn validate_outputs(
    registry: &DataTypeRegistry,
    declared: &Vec<String>,
    elems: &Vec<MemoryEntry>,
) -> (r: Option<DslError>)
    requires
        declared@.len() == elems@.len(),
    ensures
        match r {
            None => check_outputs(registry@, declared.deep_view(), elems.deep_view(), 0) is None,
            Some(e) => check_outputs(registry@, declared.deep_view(), elems.deep_view(), 0)
                == Some(e@),
        },
{
    let ghost tv = registry@;
    let ghost dv = declared.deep_view();
    let ghost ev = elems.deep_view();
    let mut j: usize = 0;
    while j < elems.len()
        invariant
            j <= elems.len(),
            declared@.len() == elems@.len(),
            tv == registry@,
            dv == declared.deep_view(),
            ev == elems.deep_view(),
            check_outputs(tv, dv, ev, 0) == check_outputs(tv, dv, ev, j as int),
        decreases elems.len() - j,
    {
        if !string_eq(&elems[j].data_type, &declared[j]) {
            return Some(DslError::OutputTypeMismatch);
        }
        let tmeta = match registry.get(declared[j].as_str()) {
            Some(m) => m,
            None => {
                return Some(DslError::DataTypeNotRegistered);
            },
        };
        if !elems[j].data.match_type(&tmeta.element_type) {
            return Some(DslError::OutputDataMismatch);
        }
        j = j + 1;
    }
    None
}

/// Inserts the generator's output entries at consecutive fresh indices and
/// returns those indices in order.
fn insert_output_entries(
    mem: &mut MemoryStore,
    last_idx: &mut usize,
    elems: &Vec<MemoryEntry>,
) -> (r: Vec<usize>)
    requires
        elems@.len() <= usize::MAX - *old(last_idx),
    ensures
        mem_views(imap_view(*final(mem))) == insert_entries(
            mem_views(imap_view(*old(mem))),
            *old(last_idx) as int,
            elems.deep_view(),
        ),
        *final(last_idx) == *old(last_idx) + elems@.len(),
        r@ == Seq::new(elems.deep_view().len(), |i: int| (*old(last_idx) + i) as usize),
{
    let ghost base = *last_idx as int;
    let ghost ev = elems.deep_view();
    let ghost m0 = mem_views(imap_view(*mem));
    let mut outputs: Vec<usize> = Vec::new();
    let mut k: usize = 0;
    proof {
        assert(ev.skip(0) =~= ev);
    }
    while k < elems.len()
        invariant
            k <= elems.len(),
            ev == elems.deep_view(),
            ev.len() == elems@.len(),
            base + ev.len() <= usize::MAX,
            *last_idx as int == base + k,
            insert_entries(m0, base, ev) == insert_entries(
                mem_views(imap_view(*mem)),
                base + k,
                ev.skip(k as int),
            ),
            outputs@.len() == k,
            forall|t: int| 0 <= t < k ==> outputs@[t] == base + t,
        decreases elems.len() - k,
    {
        let idx = *last_idx;
        let entry = elems[k].clone();
        proof {
            lemma_mem_views_insert(imap_view(*mem), idx, entry);
            assert(ev.skip(k as int).first() == ev[k as int]);
            assert(ev.skip(k as int).drop_first() =~= ev.skip(k as int + 1));
        }
        imap_insert(mem, idx, entry);
        outputs.push(idx);
        *last_idx = idx + 1;
        k = k + 1;
    }
    proof {
        assert(ev.skip(ev.len() as int) =~= Seq::<MemoryEntryV>::empty());
        assert(outputs@ =~= Seq::new(ev.len(), |i: int| (base + i) as usize));
    }
    outputs
}

/// Copies a slice of indices into a vector.
fn copy_idxs(s: &[usize]) -> (r: Vec<usize>)
    ensures
        r@ == s@,
{
    let mut r: Vec<usize> = Vec::new();
    let mut i: usize = 0;
    while i < s.len()
        invariant
            i <= s.len(),
            r@ == s@.take(i as int),
        decreases s.len() - i,
    {
        r.push(*slice_index_get(s, i));
        i = i + 1;
        proof {
            assert(r@ =~= s@.take(i as int));
        }
    }
    proof {
        assert(s@.take(s@.len() as int) =~= s@);
    }
    r
}

} // verus!
