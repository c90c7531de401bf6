use crate::global_params::CgpParameters;
use crate::utils::random::random_below;
use crate::utils::utility_funcs::{
    get_argmin, get_argmins_of_value, get_min, indices_of, is_first_argmin, is_min_of,
    is_transpose_of, lemma_indices_of, transpose,
};
use crate::vanilla_cgp::chromosome::{accepts_outputs, evaluates_to, Chromosome};
use crate::vanilla_cgp::program::accepts_operands;
use vstd::prelude::*;

verus! {

/// The individuals a new parent is drawn from: all that hold the best
/// fitness, without the current parent as soon as it has company. Stepping
/// to another individual of equal fitness is what lets the search drift
/// along a plateau.
pub open spec fn neutral_candidates_of(
    fitness_vals: Seq<u64>,
    best_fitness: u64,
    parent_id: usize,
) -> Seq<usize> {
    let ties = indices_of(fitness_vals, best_fitness);
    if ties.len() != 1 && ties.contains(parent_id) {
        ties.remove(ties.index_of(parent_id))
    } else {
        ties
    }
}

/// As long as some individual holds the best fitness there is a candidate,
/// every candidate holds the best fitness, and the current parent is a
/// candidate only if it is the only one to hold it.
pub proof fn lemma_neutral_candidates(fitness_vals: Seq<u64>, best_fitness: u64, parent_id: usize)
    requires
        fitness_vals.len() <= usize::MAX,
        exists|i: int| 0 <= i < fitness_vals.len() && fitness_vals[i] == best_fitness,
    ensures
        neutral_candidates_of(fitness_vals, best_fitness, parent_id).len() > 0,
        forall|k: int|
            0 <= k < neutral_candidates_of(fitness_vals, best_fitness, parent_id).len() ==> {
                let c = #[trigger] neutral_candidates_of(fitness_vals, best_fitness, parent_id)[k];
                c < fitness_vals.len() && fitness_vals[c as int] == best_fitness
            },
        indices_of(fitness_vals, best_fitness).len() != 1 ==> !neutral_candidates_of(
            fitness_vals,
            best_fitness,
            parent_id,
        ).contains(parent_id),
{
    let ties = indices_of(fitness_vals, best_fitness);
    let candidates = neutral_candidates_of(fitness_vals, best_fitness, parent_id);
    lemma_indices_of(fitness_vals, best_fitness);
    let i = choose|i: int| 0 <= i < fitness_vals.len() && fitness_vals[i] == best_fitness;
    assert(ties.contains(i as usize));
    if ties.len() != 1 && ties.contains(parent_id) {
        let at = ties.index_of(parent_id);
        assert forall|k: int| 0 <= k < candidates.len() implies {
            let c = #[trigger] candidates[k];
            c < fitness_vals.len() && fitness_vals[c as int] == best_fitness && c != parent_id
        } by {
            if k < at {
                assert(candidates[k] == ties[k]);
            } else {
                assert(candidates[k] == ties[k + 1]);
            }
        }
    }
}

/// Lists the individuals a new parent is drawn from.
pub fn neutral_candidates(fitness_vals: &Vec<u64>, best_fitness: u64, parent_id: usize) -> (candidates:
    Vec<usize>)
    ensures
        candidates@ == neutral_candidates_of(fitness_vals@, best_fitness, parent_id),
{
    let mut min_keys: Vec<usize> = Vec::with_capacity(fitness_vals.len());
    get_argmins_of_value(fitness_vals, &mut min_keys, best_fitness);
    assert(min_keys@ =~= indices_of(fitness_vals@, best_fitness));
    if min_keys.len() != 1 {
        let mut index: usize = 0;
        while index < min_keys.len()
            invariant
                index <= min_keys.len(),
                min_keys.len() != 1,
                min_keys@ == indices_of(fitness_vals@, best_fitness),
                forall|k: int| 0 <= k < index ==> min_keys[k] != parent_id,
            decreases min_keys.len() - index,
        {
            if min_keys[index] == parent_id {
                proof {
                    assert(fitness_vals@.len() == fitness_vals.len());
                    lemma_indices_of(fitness_vals@, best_fitness);
                    let at = min_keys@.index_of(parent_id);
                    assert(min_keys@.contains(parent_id));
                    if at < index {
                        assert(min_keys[at] < min_keys[index as int]);
                    }
                    if index < at {
                        assert(min_keys[index as int] < min_keys[at]);
                    }
                }
                min_keys.remove(index);
                return min_keys;
            }
            index = index + 1;
        }
    }
    min_keys
}

/// Whether `scores` holds, for each individual in turn, a cost of that
/// individual on the data.
pub open spec fn scores_of<
    T: Clone,
    X: Fn(usize, &Vec<T>, Option<&Vec<T>>) -> Vec<T>,
    S: Fn(&Vec<Vec<T>>, &Vec<usize>) -> u64,
>(
    population: Seq<Chromosome>,
    inputs: Seq<Vec<T>>,
    labels: Vec<usize>,
    execute: &X,
    score: &S,
    scores: Seq<u64>,
) -> bool {
    &&& scores.len() == population.len()
    &&& forall|i: int|
        0 <= i < scores.len() ==> evaluates_to(
            population[i],
            inputs,
            labels,
            execute,
            score,
            #[trigger] scores[i],
        )
}

/// Whether `data` can be turned from one row per sample into one row per
/// feature, with a row for each of `nbr_inputs` input genes: it has a first
/// sample, of at least `nbr_inputs` values, and no shorter one.
pub open spec fn holds_samples<T>(data: Seq<Vec<T>>, nbr_inputs: int) -> bool {
    &&& data.len() > 0
    &&& data[0].len() >= nbr_inputs
    &&& forall|i: int| 0 <= i < data.len() ==> (#[trigger] data[i]).len() >= data[0].len()
}

/// One run of the (mu + lambda) strategy: the data, the population, the
/// fitness of each individual, and which of them is the current parent.
///
/// The data are kept with one row per feature, so that a gene works on the
/// values of all samples at once. `T` is the type of a single value.
pub struct Runner<T> {
    params: CgpParameters,
    data: Vec<Vec<T>>,
    label: Vec<usize>,
    eval_data: Option<Vec<Vec<T>>>,
    eval_label: Option<Vec<usize>>,
    population: Vec<Chromosome>,
    best_fitness: u64,
    fitness_vals: Vec<u64>,
    parent_id: usize,
}

impl<T: Clone> Runner<T> {
    /// The settings the run was started with.
    pub closed spec fn params(&self) -> CgpParameters {
        self.params
    }

    /// The training data, one row per feature.
    pub closed spec fn data(&self) -> Vec<Vec<T>> {
        self.data
    }

    /// The labels of the training samples.
    pub closed spec fn label(&self) -> Vec<usize> {
        self.label
    }

    /// The data held back from the search, one row per feature, if any.
    pub closed spec fn eval_data(&self) -> Option<Vec<Vec<T>>> {
        self.eval_data
    }

    /// The labels of the samples held back.
    pub closed spec fn eval_label(&self) -> Option<Vec<usize>> {
        self.eval_label
    }

    /// The individuals, parent and offspring alike.
    pub closed spec fn population(&self) -> Seq<Chromosome> {
        self.population@
    }

    /// The fitness of each individual, by its place in the population.
    pub closed spec fn fitness_vals(&self) -> Seq<u64> {
        self.fitness_vals@
    }

    /// The best fitness found so far.
    pub closed spec fn best_fitness(&self) -> u64 {
        self.best_fitness
    }

    /// The place of the current parent in the population.
    pub closed spec fn parent_id(&self) -> int {
        self.parent_id as int
    }

    /// Whether the population has its full size, every individual is a
    /// well-formed chromosome of the run's settings, and the data have a row
    /// for each input gene.
    pub open spec fn populated(&self) -> bool {
        &&& self.population().len() == self.params().population_size()
        &&& self.fitness_vals().len() == self.population().len()
        &&& 0 <= self.parent_id() < self.population().len()
        &&& forall|i: int|
            0 <= i < self.population().len() ==> (#[trigger] self.population()[i]).wf()
                && self.population()[i].params == self.params()
        &&& self.params().nbr_inputs <= self.data().len()
        &&& self.eval_data() matches Some(held_out) ==> self.params().nbr_inputs <= held_out.len()
            && self.eval_label() is Some
    }

    /// The invariant between generations: the parent holds the best fitness,
    /// no individual is better, and every individual knows its active genes.
    pub open spec fn wf(&self) -> bool {
        &&& self.populated()
        &&& self.fitness_vals()[self.parent_id()] == self.best_fitness()
        &&& is_min_of(self.fitness_vals(), self.best_fitness())
        &&& forall|i: int|
            0 <= i < self.population().len() ==> (#[trigger] self.population()[i]).active_is_current()
    }

    /// Starts a run on `data`, given with one row per sample: builds
    /// `mu + lambda` random chromosomes, evaluates each on the training
    /// data, and makes the first of the best ones the parent.
    pub fn new<X: Fn(usize, &Vec<T>, Option<&Vec<T>>) -> Vec<T>, S: Fn(&Vec<Vec<T>>, &Vec<usize>) -> u64>(
        params: CgpParameters,
        data: Vec<Vec<T>>,
        label: Vec<usize>,
        eval_data: Option<Vec<Vec<T>>>,
        eval_label: Option<Vec<usize>>,
        execute: &X,
        score: &S,
    ) -> (runner: Runner<T>)
        requires
            params.buildable(),
            0 < params.population_size() <= usize::MAX,
            holds_samples(data@, params.nbr_inputs as int),
            eval_data matches Some(held_out) ==> holds_samples(held_out@, params.nbr_inputs as int)
                && eval_label is Some,
            accepts_operands(execute),
            accepts_outputs(score),
        ensures
            runner.wf(),
            runner.params() == params,
            is_transpose_of(runner.data()@, data@),
            runner.label() == label,
            match eval_data {
                Some(held_out) => runner.eval_data() is Some && is_transpose_of(
                    runner.eval_data()->0@,
                    held_out@,
                ),
                None => runner.eval_data() is None,
            },
            runner.eval_label() == eval_label,
            is_first_argmin(runner.fitness_vals(), runner.parent_id()),
            scores_of(
                runner.population(),
                runner.data()@,
                runner.label(),
                execute,
                score,
                runner.fitness_vals(),
            ),
    {
        let size: usize = params.mu + params.lambda;
        let mut chromosomes: Vec<Chromosome> = Vec::with_capacity(size);
        let mut fitness_vals: Vec<u64> = Vec::with_capacity(size);

        // one row per feature, so that a gene works on a whole column of the samples
        let data: Vec<Vec<T>> = transpose(data);
        let eval_data: Option<Vec<Vec<T>>> = match eval_data {
            Some(held_out) => Some(transpose(held_out)),
            None => None,
        };

        let mut i: usize = 0;
        while i < size
            invariant
                i <= size,
                params.buildable(),
                params.nbr_inputs <= data.len(),
                accepts_operands(execute),
                accepts_outputs(score),
                chromosomes.len() == i,
                fitness_vals.len() == i,
                forall|j: int|
                    0 <= j < i ==> {
                        let c = #[trigger] chromosomes[j];
                        &&& c.wf()
                        &&& c.params == params
                        &&& c.active_is_current()
                        &&& evaluates_to(c, data@, label, execute, score, fitness_vals[j])
                    },
            decreases size - i,
        {
            let mut chromosome: Chromosome = Chromosome::new(params);
            let fitness: u64 = chromosome.evaluate(&data, &label, execute, score);
            fitness_vals.push(fitness);
            chromosomes.push(chromosome);
            i = i + 1;
        }
        let best_fitness: u64 = get_min(&fitness_vals);
        let parent_id: usize = get_argmin(&fitness_vals);
        Runner {
            params,
            data,
            label,
            eval_data,
            eval_label,
            population: chromosomes,
            best_fitness,
            fitness_vals,
            parent_id,
        }
    }

    /// Advances the run by one generation. Every individual but the parent
    /// is replaced by a copy of the parent with one visible mutation and is
    /// evaluated on the training data; the parent itself is kept as it is.
    /// The new parent is drawn from the individuals of best fitness, the old
    /// parent stepping aside whenever another individual is as good.
    pub fn learn_step<X: Fn(usize, &Vec<T>, Option<&Vec<T>>) -> Vec<T>, S: Fn(&Vec<Vec<T>>, &Vec<usize>) -> u64>(
        &mut self,
        execute: &X,
        score: &S,
    )
        requires
            old(self).wf(),
            old(self).population().len() > 1 ==> old(self).params().mutable(),
            accepts_operands(execute),
            accepts_outputs(score),
        ensures
            final(self).wf(),
            final(self).unchanged_setup(old(self)),
            final(self).best_fitness() <= old(self).best_fitness(),
            final(self).fitness_vals()[final(self).parent_id()] <= old(self).best_fitness(),
            final(self).population()[old(self).parent_id()] == old(self).population()[old(self).parent_id()],
            final(self).fitness_vals()[old(self).parent_id()] == old(self).best_fitness(),
            forall|i: int|
                0 <= i < final(self).population().len() && i != old(self).parent_id() ==> {
                    let child = #[trigger] final(self).population()[i];
                    &&& child.offspring_of(&old(self).population()[old(self).parent_id()])
                    &&& evaluates_to(
                        child,
                        final(self).data()@,
                        final(self).label(),
                        execute,
                        score,
                        final(self).fitness_vals()[i],
                    )
                },
            neutral_candidates_of(
                final(self).fitness_vals(),
                final(self).best_fitness(),
                old(self).parent_id() as usize,
            ).contains(final(self).parent_id() as usize),
    {
        self.mutate_chromosomes();
        let ghost bred = self.population@;
        self.eval_chromosomes(execute, score);
        proof {
            let parent = old(self).population[old(self).parent_id as int];
            assert forall|i: int|
                0 <= i < self.population.len() && i != old(self).parent_id implies (
            #[trigger] self.population[i]).offspring_of(&parent) by {
                assert(bred[i].offspring_of(&parent));
                let position = choose|position: int| bred[i].visibly_mutated_from(&parent, position);
                assert(self.population[i].visibly_mutated_from(&parent, position));
            }
        }
        self.new_parent_by_neutral_search();
    }

    /// Whether the settings and the data are those of `other`.
    pub open spec fn unchanged_setup(&self, other: &Runner<T>) -> bool {
        &&& self.params() == other.params()
        &&& self.data() == other.data()
        &&& self.label() == other.label()
        &&& self.eval_data() == other.eval_data()
        &&& self.eval_label() == other.eval_label()
    }

    /// Draws the new parent among the neutral candidates.
    fn new_parent_by_neutral_search(&mut self)
        requires
            old(self).populated(),
            is_min_of(old(self).fitness_vals(), old(self).best_fitness()),
        ensures
            final(self).unchanged_setup(old(self)),
            final(self).population() == old(self).population(),
            final(self).fitness_vals() == old(self).fitness_vals(),
            final(self).best_fitness() == old(self).best_fitness(),
            final(self).populated(),
            final(self).fitness_vals()[final(self).parent_id()] == final(self).best_fitness(),
            neutral_candidates_of(
                old(self).fitness_vals(),
                old(self).best_fitness(),
                old(self).parent_id() as usize,
            ).contains(final(self).parent_id() as usize),
    {
        let candidates: Vec<usize> = neutral_candidates(
            &self.fitness_vals,
            self.best_fitness,
            self.parent_id,
        );
        proof {
            assert(self.fitness_vals@.len() == self.fitness_vals.len());
            lemma_neutral_candidates(self.fitness_vals@, self.best_fitness, self.parent_id);
        }
        let pick: usize = random_below(candidates.len());
        assert(candidates@.contains(candidates[pick as int]));
        self.parent_id = candidates[pick];
    }

    /// Overwrites every individual but the parent with a mutated copy of the
    /// parent.
    fn mutate_chromosomes(&mut self)
        requires
            old(self).wf(),
            old(self).population().len() > 1 ==> old(self).params().mutable(),
        ensures
            final(self).unchanged_setup(old(self)),
            final(self).fitness_vals() == old(self).fitness_vals(),
            final(self).best_fitness() == old(self).best_fitness(),
            final(self).parent_id() == old(self).parent_id(),
            final(self).populated(),
            final(self).population()[old(self).parent_id()] == old(self).population()[old(self).parent_id()],
            forall|i: int|
                0 <= i < final(self).population().len() && i != old(self).parent_id() ==> (
                #[trigger] final(self).population()[i]).offspring_of(
                    &old(self).population()[old(self).parent_id()],
                ),
    {
        let size: usize = self.population.len();
        let mut i: usize = 0;
        while i < size
            invariant
                i <= size,
                old(self).wf(),
                size > 1 ==> self.params.mutable(),
                self.unchanged_setup(old(self)),
                self.fitness_vals == old(self).fitness_vals,
                self.best_fitness == old(self).best_fitness,
                self.parent_id == old(self).parent_id,
                self.population.len() == size,
                size == old(self).population.len(),
                self.populated(),
                self.population[self.parent_id as int] == old(self).population[old(self).parent_id as int],
                forall|j: int|
                    0 <= j < i && j != self.parent_id ==> (#[trigger] self.population[j]).offspring_of(
                        &old(self).population[old(self).parent_id as int],
                    ),
            decreases size - i,
        {
            if i != self.parent_id {
                let mut child: Chromosome = self.population[self.parent_id].clone();
                let position: usize = child.mutate_single();
                assert(child.visibly_mutated_from(
                    &old(self).population[old(self).parent_id as int],
                    position as int,
                ));
                self.population[i] = child;
            }
            i = i + 1;
        }
    }

    /// Evaluates every individual but the parent, whose fitness still
    /// stands, and takes the best fitness of the whole population.
    fn eval_chromosomes<X: Fn(usize, &Vec<T>, Option<&Vec<T>>) -> Vec<T>, S: Fn(&Vec<Vec<T>>, &Vec<usize>) -> u64>(
        &mut self,
        execute: &X,
        score: &S,
    )
        requires
            old(self).populated(),
            old(self).population()[old(self).parent_id()].active_is_current(),
            accepts_operands(execute),
            accepts_outputs(score),
        ensures
            final(self).unchanged_setup(old(self)),
            final(self).parent_id() == old(self).parent_id(),
            final(self).populated(),
            final(self).population()[old(self).parent_id()] == old(self).population()[old(self).parent_id()],
            final(self).fitness_vals()[old(self).parent_id()] == old(self).fitness_vals()[old(self).parent_id()],
            is_min_of(final(self).fitness_vals(), final(self).best_fitness()),
            forall|i: int|
                0 <= i < final(self).population().len() ==> (#[trigger] final(self).population()[i]).active_is_current(),
            forall|i: int|
                0 <= i < final(self).population().len() && i != old(self).parent_id() ==> {
                    let c = #[trigger] final(self).population()[i];
                    &&& c.same_genotype(&old(self).population()[i])
                    &&& evaluates_to(
                        c,
                        final(self).data()@,
                        final(self).label(),
                        execute,
                        score,
                        final(self).fitness_vals()[i],
                    )
                },
    {
        let size: usize = self.population.len();
        let mut i: usize = 0;
        while i < size
            invariant
                i <= size,
                old(self).populated(),
                accepts_operands(execute),
                accepts_outputs(score),
                self.unchanged_setup(old(self)),
                self.parent_id == old(self).parent_id,
                self.best_fitness == old(self).best_fitness,
                self.population.len() == size,
                size == old(self).population.len(),
                self.populated(),
                self.population[self.parent_id as int] == old(self).population[old(self).parent_id as int],
                self.fitness_vals[self.parent_id as int] == old(self).fitness_vals[old(self).parent_id as int],
                forall|j: int| i <= j < size ==> #[trigger] self.population[j] == old(self).population[j],
                forall|j: int|
                    0 <= j < i && j != self.parent_id ==> {
                        let c = #[trigger] self.population[j];
                        &&& c.active_is_current()
                        &&& c.same_genotype(&old(self).population[j])
                        &&& evaluates_to(c, self.data@, self.label, execute, score, self.fitness_vals[j])
                    },
            decreases size - i,
        {
            if i != self.parent_id {
                let fitness: u64 = self.population[i].evaluate(&self.data, &self.label, execute, score);
                self.fitness_vals[i] = fitness;
            }
            i = i + 1;
        }
        let best_fitness: u64 = get_min(&self.fitness_vals);
        self.best_fitness = best_fitness;
    }

    /// Evaluates every individual on the data held back from the search and
    /// returns the best of these costs, or `None` if no data were held back.
    /// The standing of the individuals in the search is not touched.
    pub fn get_test_fitness<X: Fn(usize, &Vec<T>, Option<&Vec<T>>) -> Vec<T>, S: Fn(&Vec<Vec<T>>, &Vec<usize>) -> u64>(
        &mut self,
        execute: &X,
        score: &S,
    ) -> (best: Option<u64>)
        requires
            old(self).wf(),
            accepts_operands(execute),
            accepts_outputs(score),
        ensures
            final(self).wf(),
            final(self).unchanged_setup(old(self)),
            final(self).fitness_vals() == old(self).fitness_vals(),
            final(self).best_fitness() == old(self).best_fitness(),
            final(self).parent_id() == old(self).parent_id(),
            forall|i: int|
                0 <= i < final(self).population().len() ==> (#[trigger] final(self).population()[i]).same_genotype(
                    &old(self).population()[i],
                ),
            match best {
                Some(best) => final(self).eval_data() is Some && exists|scores: Seq<u64>| #[trigger]
                    scores_of(
                        final(self).population(),
                        final(self).eval_data()->0@,
                        final(self).eval_label()->0,
                        execute,
                        score,
                        scores,
                    ) && is_min_of(scores, best),
                None => final(self).eval_data() is None,
            },
    {
        if self.eval_data.is_none() {
            return None;
        }
        let mut best_fitness: u64 = u64::MAX;
        let ghost mut scores: Seq<u64> = Seq::empty();
        let size: usize = self.population.len();
        let mut i: usize = 0;
        while i < size
            invariant
                i <= size,
                old(self).wf(),
                accepts_operands(execute),
                accepts_outputs(score),
                self.unchanged_setup(old(self)),
                self.eval_data is Some,
                self.parent_id == old(self).parent_id,
                self.best_fitness == old(self).best_fitness,
                self.fitness_vals == old(self).fitness_vals,
                self.population.len() == size,
                size == old(self).population.len(),
                self.wf(),
                forall|j: int|
                    0 <= j < size ==> (#[trigger] self.population[j]).same_genotype(
                        &old(self).population[j],
                    ),
                scores.len() == i,
                forall|j: int|
                    0 <= j < i ==> evaluates_to(
                        self.population[j],
                        self.eval_data->0@,
                        self.eval_label->0,
                        execute,
                        score,
                        #[trigger] scores[j],
                    ),
                forall|j: int| 0 <= j < i ==> best_fitness <= #[trigger] scores[j],
                i == 0 ==> best_fitness == u64::MAX,
                i > 0 ==> exists|j: int| 0 <= j < i && scores[j] == best_fitness,
            decreases size - i,
        {
            let ghost before = self.population@;
            let ghost before_scores = scores;
            let fitness: u64 = self.population[i].evaluate(
                self.eval_data.as_ref().unwrap(),
                self.eval_label.as_ref().unwrap(),
                execute,
                score,
            );
            proof {
                scores = scores.push(fitness);
                assert forall|j: int| 0 <= j < size implies (#[trigger] self.population[j]).wf()
                    && self.population[j].params == self.params
                    && self.population[j].active_is_current()
                    && self.population[j].same_genotype(&old(self).population[j]) by {
                    if j != i {
                        assert(self.population[j] == before[j]);
                    }
                }
                assert forall|j: int| 0 <= j < i + 1 implies evaluates_to(
                    self.population[j],
                    self.eval_data->0@,
                    self.eval_label->0,
                    execute,
                    score,
                    #[trigger] scores[j],
                ) by {
                    if j < i {
                        assert(self.population[j] == before[j]);
                        assert(scores[j] == before_scores[j]);
                    }
                }
            }
            if fitness <= best_fitness {
                best_fitness = fitness;
                assert(scores[i as int] == best_fitness);
            } else {
                proof {
                    let j = choose|j: int| 0 <= j < i && before_scores[j] == best_fitness;
                    assert(scores[j] == best_fitness);
                }
            }
            i = i + 1;
        }
        proof {
            assert(scores_of(
                self.population@,
                self.eval_data->0@,
                self.eval_label->0,
                execute,
                score,
                scores,
            ));
            assert(is_min_of(scores, best_fitness));
        }
        Some(best_fitness)
    }

    /// The best fitness found so far.
    pub fn get_best_fitness(&self) -> (best: u64)
        ensures
            best == self.best_fitness(),
    {
        self.best_fitness
    }

    /// A copy of the current parent.
    pub fn get_parent(&self) -> (parent: Chromosome)
        requires
            self.populated(),
        ensures
            parent.same_genotype(&self.population()[self.parent_id()]),
            parent.active_nodes@ == self.population()[self.parent_id()].active_nodes@,
    {
        self.population[self.parent_id].clone()
    }
}

} // verus!
