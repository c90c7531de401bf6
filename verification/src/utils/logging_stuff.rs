use crate::vanilla_cgp::chromosome::Chromosome;
use crate::vanilla_cgp::node::{Node, NO_CONNECTION};
use vstd::prelude::*;

verus! {

/// Written in place of a connection that reads from nowhere.
pub const NOT_CONNECTED: i128 = -1;

/// A gene as it is written to the log: the operator and both connections.
#[derive(Clone, Copy, PartialEq, Eq, Structural, Debug)]
pub struct GeneRecord {
    pub function_id: usize,
    pub connection0: i128,
    pub connection1: i128,
}

/// One entry of the log: the state of a chromosome after an iteration.
#[derive(Clone, PartialEq, Eq, Debug)]
pub struct LogRecord {
    pub iteration: usize,
    pub active_nodes: Vec<usize>,
    pub genes: Vec<GeneRecord>,
}

/// How a connection is written to the log.
pub open spec fn logged_connection(connection: usize) -> i128 {
    if connection == NO_CONNECTION {
        NOT_CONNECTED
    } else {
        connection as i128
    }
}

/// How a gene is written to the log.
pub open spec fn logged_gene(node: Node) -> GeneRecord {
    GeneRecord {
        function_id: node.function_id,
        connection0: logged_connection(node.connection0),
        connection1: logged_connection(node.connection1),
    }
}

/// Whether `record` is the log entry for `chromosome` after iteration `it`.
pub open spec fn logs(record: LogRecord, it: usize, chromosome: Chromosome) -> bool {
    &&& record.iteration == it
    &&& record.active_nodes@ == chromosome.active_nodes@
    &&& record.genes@ == chromosome.nodes_grid@.map_values(|node: Node| logged_gene(node))
}

fn log_connection(connection: usize) -> (logged: i128)
    ensures
        logged == logged_connection(connection),
{
    if connection == NO_CONNECTION {
        NOT_CONNECTED
    } else {
        connection as i128
    }
}

impl Chromosome {
    /// The genes as they are written to the log, one record per position.
    pub fn gene_records(&self) -> (genes: Vec<GeneRecord>)
        ensures
            genes@ == self.nodes_grid@.map_values(|node: Node| logged_gene(node)),
    {
        let mut genes: Vec<GeneRecord> = Vec::with_capacity(self.nodes_grid.len());
        let mut i: usize = 0;
        while i < self.nodes_grid.len()
            invariant
                i <= self.nodes_grid.len(),
                genes.len() == i,
                forall|j: int| 0 <= j < i ==> #[trigger] genes[j] == logged_gene(self.nodes_grid[j]),
            decreases self.nodes_grid.len() - i,
        {
            let node: Node = self.nodes_grid[i];
            genes.push(
                GeneRecord {
                    function_id: node.function_id,
                    connection0: log_connection(node.connection0),
                    connection1: log_connection(node.connection1),
                },
            );
            i = i + 1;
        }
        assert(genes@ =~= self.nodes_grid@.map_values(|node: Node| logged_gene(node)));
        genes
    }
}

/// Collects log entries until they are handed to whoever writes them out.
pub struct LoggingStuff {
    pending: Vec<LogRecord>,
}

impl LoggingStuff {
    /// The entries collected and not yet handed out, oldest first.
    pub closed spec fn pending(&self) -> Seq<LogRecord> {
        self.pending@
    }

    /// An empty log.
    pub fn new() -> (log: LoggingStuff)
        ensures
            log.pending().len() == 0,
    {
        LoggingStuff { pending: Vec::new() }
    }

    /// Appends the entry for `chromosome` after iteration `it`: its list of
    /// active positions as it stands, and all of its genes.
    pub fn execute(&mut self, it: usize, chromosome: &Chromosome)
        ensures
            final(self).pending().len() == old(self).pending().len() + 1,
            final(self).pending().drop_last() == old(self).pending(),
            logs(final(self).pending().last(), it, *chromosome),
    {
        let record = LogRecord {
            iteration: it,
            active_nodes: chromosome.active_nodes.clone(),
            genes: chromosome.gene_records(),
        };
        self.pending.push(record);
        assert(self.pending@.drop_last() =~= old(self).pending@);
    }

    /// Hands out the collected entries, oldest first, and leaves the log
    /// empty.
    pub fn close_writer(&mut self) -> (records: Vec<LogRecord>)
        ensures
            records@ == old(self).pending(),
            final(self).pending().len() == 0,
    {
        let mut records: Vec<LogRecord> = Vec::new();
        std::mem::swap(&mut self.pending, &mut records);
        records
    }
}

} // verus!
