//! Builds a single dump document out of the files found by a directory walk:
//! one fenced, name-labelled block per readable file, in walk order, with the
//! output file itself always left out.

pub mod block;
pub mod dump;
