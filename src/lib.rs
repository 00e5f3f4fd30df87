//! An embeddable concatenative (stack-based) scripting language runtime.
//!
//! Source text is tokenized into a flat tape of cells; the interpreter steps
//! through that tape one cell at a time, pushing literals onto a data stack and
//! resolving words through a dictionary. All control flow is expressed by
//! moving the tape cursor and recording resume points on a return stack.
//!
//! Work that the engine cannot do itself (host-registered natives and all
//! floating-point arithmetic) is handed to the host through the step result.

pub mod cell;
pub mod concat;
pub mod dictionary;
pub mod engine;
pub mod error;
pub mod laws;
pub mod number;
pub mod pack;
pub mod prelude;
pub mod primitives;
pub mod roundtrip;
pub mod stack;
pub mod tokenizer;

pub use cell::{BlockRef, Cell, CellView, StructRef};
pub use concat::Concat;
pub use engine::register_primitives;
pub use prelude::PRELUDE;
pub use dictionary::{DictEntry, Dictionary, NativeFn, WordTable};
pub use error::{Error, ErrorKind};
pub use laws::{
    law_block_capture, law_entries_save_the_cursor, law_mixed_arith_is_type_error, law_return_balance, law_scope_isolation,
    law_underflow_is_reported,
};
pub use pack::{FloatOp, HostCall, Pack, Step};
pub use roundtrip::law_literal_round_trip;
pub use primitives::{ArithOp, CmpOp, LogicOp, Prim};
pub use stack::{RetStack, Stack};
pub use tokenizer::{next_cell, parse_token, tokenize};
