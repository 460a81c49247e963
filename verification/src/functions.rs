//! The function registry: a directory from function names to declared
//! input/output type vectors and a generator.
//!
//! A generator supplies two computations: a *trace generator* that computes
//! IR-level output entries (and hints) from the call's input entries while
//! the front-end runs, and a *script generator* that emits target bytecode
//! given the runtime stack positions of the call's reference-typed inputs.
//! Both are user code; the library states their behaviour through the
//! [`FunctionGenerator`] trait, whose specification functions pin each
//! implementation to a deterministic outcome.

use vstd::prelude::*;
use crate::memory::{clone_entries, MemoryEntry, MemoryEntryV};
use crate::options::{Options, OptionsV};
use crate::strutil::string_eq;

verus! {

/// What a trace generator returns: the output entries of the call, in
/// declared order, and any hint entries to accumulate.
#[derive(Debug)]
pub struct FunctionOutput {
    pub new_elements: Vec<MemoryEntry>,
    pub new_hints: Vec<MemoryEntry>,
}

/// The mathematical value of a [`FunctionOutput`].
pub struct FunctionOutputV {
    pub new_elements: Seq<MemoryEntryV>,
    pub new_hints: Seq<MemoryEntryV>,
}

impl View for FunctionOutput {
    type V = FunctionOutputV;

    open spec fn view(&self) -> FunctionOutputV {
        FunctionOutputV {
            new_elements: self.new_elements.deep_view(),
            new_hints: self.new_hints.deep_view(),
        }
    }
}

/// One declared input of a function: the data-type name and whether the
/// argument is consumed by reference (addressed by stack position, neither
/// copied nor moved).
#[derive(Debug)]
pub struct FormalParam {
    pub data_type: String,
    pub by_ref: bool,
}

/// The mathematical value of a [`FormalParam`].
pub struct FormalParamV {
    pub data_type: Seq<char>,
    pub by_ref: bool,
}

impl View for FormalParam {
    type V = FormalParamV;

    open spec fn view(&self) -> FormalParamV {
        FormalParamV { data_type: self.data_type@, by_ref: self.by_ref }
    }
}

impl DeepView for FormalParam {
    type V = FormalParamV;

    open spec fn deep_view(&self) -> FormalParamV {
        self.view()
    }
}

impl FormalParam {
    /// A by-value input of the named type.
    pub fn by_value(data_type: &str) -> (r: Self)
        ensures
            r@ == (FormalParamV { data_type: data_type@, by_ref: false }),
    {
        FormalParam { data_type: data_type.to_owned(), by_ref: false }
    }

    /// A by-reference input of the named type.
    pub fn by_reference(data_type: &str) -> (r: Self)
        ensures
            r@ == (FormalParamV { data_type: data_type@, by_ref: true }),
    {
        FormalParam { data_type: data_type.to_owned(), by_ref: true }
    }
}

/// A user-supplied pair of generators.  The specification functions name
/// the outcome of each generator; the executable methods must return
/// exactly that outcome, so that a compilation is a function of the DSL.
pub trait FunctionGenerator: Sized {
    /// The outcome of the trace generator: `None` means it fails.
    spec fn trace_spec(&self, inputs: Seq<MemoryEntryV>) -> Option<FunctionOutputV>;

    /// The outcome of the options-accepting trace generator.
    spec fn trace_with_options_spec(&self, inputs: Seq<MemoryEntryV>, options: OptionsV) -> Option<
        FunctionOutputV,
    >;

    /// The bytes the script generator emits: `None` means it fails.
    spec fn script_spec(&self, ref_positions: Seq<usize>) -> Option<Seq<u8>>;

    /// The bytes the options-accepting script generator emits.
    spec fn script_with_options_spec(&self, ref_positions: Seq<usize>, options: OptionsV) -> Option<
        Seq<u8>,
    >;

    /// Computes the call's output entries and hints from its input entries.
    /// An `Err` carries the generator's reason verbatim.
    fn trace(&self, inputs: &Vec<MemoryEntry>) -> (r: Result<FunctionOutput, String>)
        ensures
            match r {
                Ok(o) => self.trace_spec(inputs.deep_view()) == Some(o@),
                Err(_) => self.trace_spec(inputs.deep_view()) is None,
            },
    ;

    /// As [`Self::trace`], with a per-call options bag.
    fn trace_with_options(&self, inputs: &Vec<MemoryEntry>, options: &Options) -> (r: Result<
        FunctionOutput,
        String,
    >)
        ensures
            match r {
                Ok(o) => self.trace_with_options_spec(inputs.deep_view(), options@) == Some(o@),
                Err(_) => self.trace_with_options_spec(inputs.deep_view(), options@) is None,
            },
    ;

    /// Emits the call's target bytecode given the positions of its
    /// reference inputs.  An `Err` carries the generator's reason verbatim.
    fn script(&self, ref_positions: &Vec<usize>) -> (r: Result<Vec<u8>, String>)
        ensures
            match r {
                Ok(b) => self.script_spec(ref_positions@) == Some(b@),
                Err(_) => self.script_spec(ref_positions@) is None,
            },
    ;

    /// As [`Self::script`], with a per-call options bag.
    fn script_with_options(&self, ref_positions: &Vec<usize>, options: &Options) -> (r: Result<
        Vec<u8>,
        String,
    >)
        ensures
            match r {
                Ok(b) => self.script_with_options_spec(ref_positions@, options@) == Some(b@),
                Err(_) => self.script_with_options_spec(ref_positions@, options@) is None,
            },
    ;
}

/// The registered description of one function.
#[derive(Debug)]
pub struct FunctionMetadata<G> {
    /// Declared inputs, in argument order.
    pub input: Vec<FormalParam>,
    /// Declared output type names, in output order.
    pub output: Vec<String>,
    /// The function's generators.
    pub generator: G,
}

/// A registered function, tagged by whether its generators accept a
/// per-call options bag.
#[derive(Debug)]
pub enum AcceptableFunctionMetadata<G> {
    FunctionWithoutOptions(FunctionMetadata<G>),
    FunctionWithOptions(FunctionMetadata<G>),
}

/// The mathematical value of a registered function.
pub struct FuncMetaV<G> {
    pub input: Seq<FormalParamV>,
    pub output: Seq<Seq<char>>,
    pub generator: G,
    pub accepts_options: bool,
}

impl<G> View for AcceptableFunctionMetadata<G> {
    type V = FuncMetaV<G>;

    open spec fn view(&self) -> FuncMetaV<G> {
        match self {
            AcceptableFunctionMetadata::FunctionWithoutOptions(m) => FuncMetaV {
                input: m.input.deep_view(),
                output: m.output.deep_view(),
                generator: m.generator,
                accepts_options: false,
            },
            AcceptableFunctionMetadata::FunctionWithOptions(m) => FuncMetaV {
                input: m.input.deep_view(),
                output: m.output.deep_view(),
                generator: m.generator,
                accepts_options: true,
            },
        }
    }
}

/// A directory from function names to registered functions.  Registration
/// is append-only; a later registration of the same name shadows the
/// earlier one.
#[derive(Debug)]
pub struct FunctionRegistry<G> {
    pub entries: Vec<(String, AcceptableFunctionMetadata<G>)>,
}

/// The map denoted by an ordered registration list: later entries override
/// earlier ones.
pub open spec fn fr_map<G>(entries: Seq<(String, AcceptableFunctionMetadata<G>)>) -> Map<
    Seq<char>,
    FuncMetaV<G>,
>
    decreases entries.len(),
{
    if entries.len() == 0 {
        Map::empty()
    } else {
        fr_map(entries.drop_last()).insert(entries.last().0@, entries.last().1@)
    }
}

/// The most recent registration of a name, if any.
pub open spec fn fr_lookup<G>(
    entries: Seq<(String, AcceptableFunctionMetadata<G>)>,
    name: Seq<char>,
) -> Option<FuncMetaV<G>>
    decreases entries.len(),
{
    if entries.len() == 0 {
        None
    } else if entries.last().0@ == name {
        Some(entries.last().1@)
    } else {
        fr_lookup(entries.drop_last(), name)
    }
}

/// The recursive lookup agrees with the map view.
proof fn lemma_fr_lookup_map<G>(entries: Seq<(String, AcceptableFunctionMetadata<G>)>, name: Seq<char>)
    ensures
        fr_lookup(entries, name) == (if fr_map(entries).contains_key(name) {
            Some(fr_map(entries)[name])
        } else {
            None::<FuncMetaV<G>>
        }),
    decreases entries.len(),
{
    if entries.len() > 0 {
        lemma_fr_lookup_map(entries.drop_last(), name);
    }
}

impl<G> View for FunctionRegistry<G> {
    type V = Map<Seq<char>, FuncMetaV<G>>;

    open spec fn view(&self) -> Map<Seq<char>, FuncMetaV<G>> {
        fr_map(self.entries@)
    }
}

impl<G> FunctionRegistry<G> {
    /// An empty registry.
    pub fn new() -> (r: Self)
        ensures
            r@ == Map::<Seq<char>, FuncMetaV<G>>::empty(),
    {
        FunctionRegistry { entries: Vec::new() }
    }

    /// Registers a function, shadowing any earlier registration of the same
    /// name.
    pub fn insert(&mut self, name: &str, meta: AcceptableFunctionMetadata<G>)
        ensures
            final(self)@ == old(self)@.insert(name@, meta@),
    {
        self.entries.push((name.to_owned(), meta));
        proof {
            assert(self.entries@.drop_last() =~= old(self).entries@);
        }
    }

    /// The most recent registration of a name, if any.
    pub fn get<'a>(&'a self, name: &str) -> (r: Option<&'a AcceptableFunctionMetadata<G>>)
        ensures
            match r {
                Some(m) => self@.contains_key(name@) && m@ == self@[name@],
                None => !self@.contains_key(name@),
            },
    {
        proof {
            lemma_fr_lookup_map(self.entries@, name@);
        }
        let key: String = name.to_owned();
        let mut i: usize = self.entries.len();
        proof {
            assert(self.entries@.take(i as int) =~= self.entries@);
        }
        while i > 0
            invariant
                i <= self.entries.len(),
                key@ == name@,
                fr_lookup(self.entries@, name@) == fr_lookup(self.entries@.take(i as int), name@),
            decreases i,
        {
            i = i - 1;
            if string_eq(&self.entries[i].0, &key) {
                proof {
                    assert(self.entries@.take(i as int + 1).last() == self.entries@[i as int]);
                    assert(fr_lookup(self.entries@.take(i as int + 1), name@) == Some(self.entries@[i as int].1@));
                    lemma_fr_lookup_map(self.entries@, name@);
                }
                return Some(&self.entries[i].1);
            }
            proof {
                assert(self.entries@.take(i as int + 1).drop_last() =~= self.entries@.take(i as int));
            }
        }
        None
    }
}

/// A generator that returns fixed outputs, fixed hints and a fixed script,
/// whatever the inputs, the reference positions and the options are.  It
/// covers every function whose bytecode does not depend on reference
/// positions; richer generators implement [`FunctionGenerator`] themselves.
#[derive(Debug)]
pub struct FixedFunction {
    /// The bytes the script generator emits.
    pub script_bytes: Vec<u8>,
    /// The output entries the trace generator returns, in declared order.
    pub elements: Vec<MemoryEntry>,
    /// The hint entries the trace generator returns.
    pub hints: Vec<MemoryEntry>,
}

impl FunctionGenerator for FixedFunction {
    open spec fn trace_spec(&self, inputs: Seq<MemoryEntryV>) -> Option<FunctionOutputV> {
        Some(
            FunctionOutputV {
                new_elements: self.elements.deep_view(),
                new_hints: self.hints.deep_view(),
            },
        )
    }

    open spec fn trace_with_options_spec(&self, inputs: Seq<MemoryEntryV>, options: OptionsV) -> Option<
        FunctionOutputV,
    > {
        self.trace_spec(inputs)
    }

    open spec fn script_spec(&self, ref_positions: Seq<usize>) -> Option<Seq<u8>> {
        Some(self.script_bytes@)
    }

    open spec fn script_with_options_spec(&self, ref_positions: Seq<usize>, options: OptionsV) -> Option<
        Seq<u8>,
    > {
        self.script_spec(ref_positions)
    }

    fn trace(&self, inputs: &Vec<MemoryEntry>) -> (r: Result<FunctionOutput, String>) {
        Ok(
            FunctionOutput {
                new_elements: clone_entries(&self.elements),
                new_hints: clone_entries(&self.hints),
            },
        )
    }

    fn trace_with_options(&self, inputs: &Vec<MemoryEntry>, options: &Options) -> (r: Result<
        FunctionOutput,
        String,
    >) {
        self.trace(inputs)
    }

    fn script(&self, ref_positions: &Vec<usize>) -> (r: Result<Vec<u8>, String>) {
        let mut b: Vec<u8> = Vec::new();
        let mut i: usize = 0;
        while i < self.script_bytes.len()
            invariant
                i <= self.script_bytes.len(),
                b@ == self.script_bytes@.take(i as int),
            decreases self.script_bytes.len() - i,
        {
            b.push(self.script_bytes[i]);
            i = i + 1;
            proof {
                assert(b@ =~= self.script_bytes@.take(i as int));
            }
        }
        proof {
            assert(self.script_bytes@.take(self.script_bytes@.len() as int) =~= self.script_bytes@);
        }
        Ok(b)
    }

    fn script_with_options(&self, ref_positions: &Vec<usize>, options: &Options) -> (r: Result<
        Vec<u8>,
        String,
    >) {
        self.script(ref_positions)
    }
}

} // verus!
