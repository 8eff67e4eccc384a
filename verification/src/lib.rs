//! The value arena and host-function runtime of a gas-metered virtual
//! machine for contracts.
//!
//! A contract runs in a sandbox and can hand nothing but machine integers
//! across its boundary. Structured values therefore live on the host side,
//! in an [`arena`], and the guest holds their handles. The host functions in
//! [`imports`] work on the values behind the handles, account for gas in the
//! [`env`] of the invocation, and queue what they return besides their
//! result for the guest's operand stack.
//!
//! The values themselves are defined in [`value`], their integers in
//! [`integer`], their lists in [`list`], and maps and sets that are ordered
//! by value in [`table`]. The wire format of values is in [`codec`], stated
//! over the JSON documents of [`json`]; the messages between engine and host
//! are in [`vm_client`] and [`vm_server`]. One invocation is set up and
//! concluded in [`instance`]; the contract table is in [`state`], and the
//! decisions of the dispatcher that takes transactions are in [`run_loop`].

pub mod arena;
pub mod codec;
pub mod contract_address;
pub mod conversions;
pub mod env;
pub mod errors;
pub mod imports;
pub mod incoming;
pub mod instance;
pub mod integer;
pub mod json;
pub mod list;
pub mod order;
pub mod outgoing;
pub mod run_loop;
pub mod state;
pub mod table;
pub mod ticket;
pub mod value;
pub mod vm_client;
pub mod vm_server;
