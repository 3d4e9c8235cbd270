pub mod anderson;
pub mod const_mem;
pub mod cubicsolver;
pub mod dataflow;
pub mod lattice;
pub mod live;
pub mod possible_mem;
pub mod analysis;
