//! Nearest-neighbor queries over the rows of a table.
//!
//! A query runs a spatial search from every row, or from one point, and
//! gathers the answers into a column. The search itself works on
//! floating-point coordinates and is handed in as a function; what stands
//! around it is verified: how the inputs are read, which rows are searched and
//! with which arguments, what each answer becomes, how the rows are cut into
//! pieces for a thread pool and how the pieces are put together again.
//!
//! The contracts speak of a search by what a call of it may answer
//! (`call_ensures`), so they hold for every search. Where a search has one
//! answer for each row, `laws` shows what follows.
pub mod comparisons;
pub mod counts;
pub mod error;
pub mod filter;
pub mod gather;
pub mod inputs;
pub mod laws;
pub mod pieces;
pub mod pool;
pub mod ptwise;
pub mod row_by_row;
pub mod schema;
pub mod search;
pub mod series;
pub mod tree;
pub mod with_dist;

pub use counts::{pl_nb_cnt, query_nb_cnt};
pub use error::KnnError;
pub use filter::{check_point, filter_column, pl_knn_filter};
pub use inputs::{
    knn_inputs, ptwise_inputs, radius_ids, KdtreeKwargs, KdtreeRadiusKwargs, PtwiseInputs,
};
pub use pieces::split_offsets;
pub use ptwise::{
    knn_ptwise_in_pieces, knn_ptwise_on_pool, pl_knn_ptwise, pl_query_radius_ptwise,
};
pub use schema::{knn_full_output, ColumnField, ColumnType};
pub use tree::build_standard_kdtree;
pub use with_dist::{knn_dist_column, pl_knn_ptwise_w_dist};
