//! Opening and using a TUN device.

use super::PlatformError;
use crate::text::{self, decimal_text};
use vstd::prelude::*;

verus! {

/// What a TUN device should be.
#[derive(Debug)]
pub struct TunConfig {
    /// The name to ask for.
    pub name: String,
    /// The MTU; 0 leaves it to the system.
    pub mtu: u32,
}

/// An open TUN device.
#[derive(Debug)]
pub struct TunHandle {
    name: String,
}

/// The MTU to ask for: none when it is left to the system. One that does not
/// fit in sixteen bits is refused.
pub fn requested_mtu(cfg: &TunConfig) -> (r: Result<Option<u16>, PlatformError>)
    ensures
        r is Ok <==> cfg.mtu <= u16::MAX,
        r matches Ok(m) ==> m == if cfg.mtu == 0 {
            None
        } else {
            Some(cfg.mtu as u16)
        },
        r matches Err(e) ==> (e matches PlatformError::Tun(why) && why@ == "MTU "@ + text::decimal(
            cfg.mtu as nat,
        ) + " 超出 u16 范围"@),
{
    if cfg.mtu == 0 {
        Ok(None)
    } else if cfg.mtu <= 65535 {
        Ok(Some(cfg.mtu as u16))
    } else {
        let mut why = "MTU ".to_owned();
        why.append(decimal_text(cfg.mtu as u64).as_str());
        why.append(" 超出 u16 范围");
        Err(PlatformError::Tun(why))
    }
}

/// What it means that `written` of `len` bytes of a packet were written: a
/// packet is written whole or not at all.
pub fn packet_written(written: usize, len: usize) -> (r: Result<(), PlatformError>)
    ensures
        r is Ok <==> written == len,
        r matches Err(e) ==> (e matches PlatformError::Tun(why) && why@ == "短写: 写了 "@
            + text::decimal(written as nat) + "/"@ + text::decimal(len as nat) + " 字节"@),
{
    if written == len {
        Ok(())
    } else {
        let mut why = "短写: 写了 ".to_owned();
        why.append(decimal_text(written as u64).as_str());
        why.append("/");
        why.append(decimal_text(len as u64).as_str());
        why.append(" 字节");
        Err(PlatformError::Tun(why))
    }
}

impl TunHandle {
    /// The name of the device.
    pub closed spec fn device_name(&self) -> Seq<char> {
        self.name@
    }

    /// A device that was asked for under one name and got another; where the
    /// system does not tell, it has the name it was asked for under.
    pub fn opened(cfg: &TunConfig, assigned: String) -> (t: Self)
        ensures
            t.device_name() == if assigned@.len() == 0 {
                cfg.name@
            } else {
                assigned@
            },
    {
        if assigned.as_str().is_empty() {
            TunHandle { name: cfg.name.clone() }
        } else {
            TunHandle { name: assigned }
        }
    }

    /// The name of the device.
    pub fn name(&self) -> (s: &str)
        ensures
            s@ == self.device_name(),
    {
        self.name.as_str()
    }
}

} // verus!
