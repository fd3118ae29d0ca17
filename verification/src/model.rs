//! The catalog's data model: a named trace definition, its payload variants,
//! and the mathematical views that the contracts speak of.
use vstd::prelude::*;

verus! {

/// Sampling frequency of a branch-sampling tracer.
#[derive(Clone, Copy, PartialEq, Eq, Structural, Debug)]
pub enum Frequency {
    Max,
    Default,
    Specific(usize),
}

impl core::default::Default for Frequency {
    fn default() -> (r: Self)
        ensures
            r == Frequency::Default,
    {
        Frequency::Default
    }
}

/// What a trace definition attaches: a dynamic-instrumentation job or a
/// branch-sampling job.
#[derive(Clone, Debug, PartialEq, Eq)]
pub enum TraceContent {
    SystemTap {
        function_list: Vec<String>,
        process: String,
        args: Vec<String>,
        envs: Vec<(String, String)>,
    },
    PerfBranch {
        frequency: Frequency,
        absolute_path: String,
        additional_args: Vec<String>,
    },
}

/// Mathematical view of [`TraceContent`].
pub enum TraceContentV {
    SystemTapV {
        function_list: Seq<Seq<char>>,
        process: Seq<char>,
        args: Seq<Seq<char>>,
        envs: Seq<(Seq<char>, Seq<char>)>,
    },
    PerfBranchV {
        frequency: Frequency,
        absolute_path: Seq<char>,
        additional_args: Seq<Seq<char>>,
    },
}

pub open spec fn strings_view(v: Seq<String>) -> Seq<Seq<char>> {
    v.map_values(|s: String| s@)
}

pub open spec fn pairs_view(v: Seq<(String, String)>) -> Seq<(Seq<char>, Seq<char>)> {
    v.map_values(|p: (String, String)| (p.0@, p.1@))
}

impl View for TraceContent {
    type V = TraceContentV;

    open spec fn view(&self) -> TraceContentV {
        match self {
            TraceContent::SystemTap { function_list, process, args, envs } => {
                TraceContentV::SystemTapV {
                    function_list: strings_view(function_list@),
                    process: process@,
                    args: strings_view(args@),
                    envs: pairs_view(envs@),
                }
            },
            TraceContent::PerfBranch { frequency, absolute_path, additional_args } => {
                TraceContentV::PerfBranchV {
                    frequency: *frequency,
                    absolute_path: absolute_path@,
                    additional_args: strings_view(additional_args@),
                }
            },
        }
    }
}

impl core::default::Default for TraceContent {
    fn default() -> (r: Self)
        ensures
            r@ == (TraceContentV::PerfBranchV {
                frequency: Frequency::Default,
                absolute_path: Seq::<char>::empty(),
                additional_args: Seq::<Seq<char>>::empty(),
            }),
    {
        let r = TraceContent::PerfBranch {
            frequency: Frequency::Default,
            absolute_path: String::new(),
            additional_args: Vec::new(),
        };
        proof {
            assert(r@ matches TraceContentV::PerfBranchV { absolute_path, additional_args, .. }
                ==> absolute_path =~= Seq::<char>::empty() && additional_args =~= Seq::<
                Seq<char>,
            >::empty());
        }
        r
    }
}

/// A named, persisted trace definition: the catalog's record type.
#[derive(Clone, Debug, PartialEq, Eq)]
pub struct TraceModel {
    pub name: String,
    pub lasting: usize,
    pub interval: usize,
    pub content: TraceContent,
}

/// Mathematical view of [`TraceModel`].
pub struct TraceModelV {
    pub name: Seq<char>,
    pub lasting: usize,
    pub interval: usize,
    pub content: TraceContentV,
}

impl View for TraceModel {
    type V = TraceModelV;

    open spec fn view(&self) -> TraceModelV {
        TraceModelV {
            name: self.name@,
            lasting: self.lasting,
            interval: self.interval,
            content: self.content@,
        }
    }
}

} // verus!
