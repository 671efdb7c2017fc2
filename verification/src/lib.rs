//! A watch-only hardware wallet core.
//!
//! Private keys live on a hardware dongle; wallet metadata is kept in an
//! encrypted file whose key is derived through the dongle.  The library
//! holds the verified logic: packet framing for the dongle link, the APDU
//! command protocol, the encrypted wallet file format, and the blockchain
//! rescan engine.  All device, file and network I/O is left to the caller,
//! which hands the library plain byte values.

pub mod constants;
pub mod error;
pub mod util;
pub mod transport;
pub mod apdu;
pub mod crypto;
pub mod dongle;
pub mod descriptor;
pub mod wallet;
pub mod scan;
pub mod getnewaddress;
pub mod rescan;
