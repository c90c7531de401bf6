use crate::datasets::fitness_metric_type::FitnessFuncType;
use vstd::prelude::*;

verus! {

/// The settings of one run, fixed when the population is built.
#[derive(Clone, Copy, Debug)]
pub struct CgpParameters {
    /// Number of computational genes.
    pub graph_width: usize,
    /// Number of parents kept from one generation to the next.
    pub mu: usize,
    /// Number of offspring bred per generation.
    pub lambda: usize,
    /// Reporting cadence; read by reporting code only.
    pub eval_after_iterations: usize,
    /// Number of input genes, one per feature.
    pub nbr_inputs: usize,
    /// Number of output genes.
    pub nbr_outputs: usize,
    /// How predictions are scored.
    pub fitness_func_type: FitnessFuncType,
}

impl CgpParameters {
    /// Position of the first output gene: inputs come first, computational
    /// genes second.
    pub open spec fn output_start(self) -> int {
        self.nbr_inputs + self.graph_width
    }

    /// Total number of genes of a chromosome built from these settings.
    pub open spec fn nbr_nodes(self) -> int {
        self.nbr_inputs + self.graph_width + self.nbr_outputs
    }

    /// Smallest position that mutation may touch. With a single input the
    /// first computational gene can only ever read position 0, so it is
    /// skipped.
    pub open spec fn first_mutable(self) -> int {
        if self.nbr_inputs == 1 {
            2
        } else {
            self.nbr_inputs as int
        }
    }

    /// The settings a chromosome can be built from: the gene count fits the
    /// machine word and every non-input gene has something to read.
    pub open spec fn buildable(self) -> bool {
        &&& self.nbr_nodes() <= usize::MAX
        &&& self.graph_width > 0 ==> self.nbr_inputs > 0
        &&& self.nbr_outputs > 0 ==> self.output_start() > 0
    }

    /// The settings under which a visible mutation always exists: there is an
    /// output gene, and the last gene is open to mutation.
    pub open spec fn mutable(self) -> bool {
        &&& self.nbr_outputs > 0
        &&& self.first_mutable() < self.nbr_nodes()
    }

    /// The population size, parents and offspring together.
    pub open spec fn population_size(self) -> int {
        self.mu + self.lambda
    }

    /// Tests whether a chromosome can be built from these settings.
    pub fn is_buildable(&self) -> (ok: bool)
        ensures
            ok == self.buildable(),
    {
        if self.nbr_inputs > usize::MAX - self.graph_width {
            return false;
        }
        let output_start: usize = self.nbr_inputs + self.graph_width;
        if output_start > usize::MAX - self.nbr_outputs {
            return false;
        }
        (self.graph_width == 0 || self.nbr_inputs > 0) && (self.nbr_outputs == 0 || output_start
            > 0)
    }

    /// Tests whether a chromosome of these settings always has a gene whose
    /// mutation is visible.
    pub fn is_mutable(&self) -> (ok: bool)
        requires
            self.nbr_nodes() <= usize::MAX,
        ensures
            ok == self.mutable(),
    {
        let first_mutable: usize = if self.nbr_inputs == 1 {
            2
        } else {
            self.nbr_inputs
        };
        let nbr_nodes: usize = self.nbr_inputs + self.graph_width + self.nbr_outputs;
        self.nbr_outputs > 0 && first_mutable < nbr_nodes
    }
}

} // verus!
