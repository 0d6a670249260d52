mod cursor;
mod datapoint;
mod laws;
mod merge;
mod series;
mod union;
mod versioned_value;

pub use cursor::{less_end, Cursor, CursorIterator, Value};
pub use datapoint::DataPoint;
pub use laws::{
    lemma_merge_idempotent, lemma_merge_last, lemma_union_disjoint, lemma_union_empty_left,
    lemma_union_empty_right, lemma_union_ordered, lemma_union_swap, lemma_union_symmetric,
};
pub use merge::{merge_spec, Merge};
pub use series::{of_iter, FromIteratorSeries, Series};
pub use union::{union_spec, Union, UnionResult};
pub use versioned_value::VersionedValue;
