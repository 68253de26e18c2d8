//! Verified building blocks of a small collection of system-programming exercises:
//! a first-fit block allocator, account parsing and grouping, the computing side of a
//! password breach check, a host/port scanner's planning and decisions, an ELF
//! sniffer, numbers written out in French and integer arithmetic that saturates to
//! zero.

pub mod account;
pub mod check_elf;
pub mod counting;
pub mod french;
pub mod pwdchk;
pub mod text;
pub mod tp_alloc;
pub mod zero_arith;
