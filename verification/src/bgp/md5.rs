//! TCP-MD5 signature keys (RFC 2385).

use vstd::prelude::*;

use crate::base::net::IpAddr;
use crate::base::text::{decimal, push_decimal};
use crate::io::packet_io::{IoError, IoErrorKind};

verus! {

/// The longest key (Linux `TCP_MD5SIG_MAXKEYLEN`).
pub const MAX_KEYLEN: usize = 80;

/// What a socket option for a TCP-MD5 key holds: the peer's IPv4 address, and
/// the key at the front of a zeroed buffer.
pub struct TcpMd5Key {
    pub addr: [u8; 4],
    pub keylen: u16,
    pub key: [u8; 80],
}

/// Prepares the TCP-MD5 key for a peer. Keys longer than 80 bytes are rejected
/// with `InvalidInput`, IPv6 peers with `Unsupported`.
pub fn tcp_md5_key(peer: IpAddr, password: &[u8]) -> (r: Result<TcpMd5Key, IoError>)
    ensures
        match r {
            Ok(k) => password@.len() <= MAX_KEYLEN && (peer matches IpAddr::V4(v4) && k.addr@
                == v4.octet_seq()) && k.keylen == password@.len() && k.key@ == password@
                + Seq::new((MAX_KEYLEN - password@.len()) as nat, |i: int| 0u8),
            Err(e) => if password@.len() > MAX_KEYLEN {
                e.kind is InvalidInput && e.message@ == "TCP_MD5SIG password too long ("@ + decimal(
                    password@.len() as int,
                ) + " bytes > 80)"@
            } else {
                peer is V6 && e.kind is Unsupported && e.message@
                    == "TCP_MD5SIG not yet wired for IPv6 peers"@
            },
        },
{
    if password.len() > MAX_KEYLEN {
        let mut message = "TCP_MD5SIG password too long (".to_string();
        push_decimal(&mut message, password.len() as u64);
        message.append(" bytes > 80)");
        return Err(IoError { kind: IoErrorKind::InvalidInput, message });
    }
    match peer {
        IpAddr::V4(v4) => {
            let mut key: [u8; 80] = [0; 80];
            let mut i: usize = 0;
            while i < password.len()
                invariant
                    i <= password@.len() <= MAX_KEYLEN,
                    key@ =~= password@.take(i as int) + Seq::new(
                        (MAX_KEYLEN - i) as nat,
                        |j: int| 0u8,
                    ),
                decreases password@.len() - i,
            {
                key[i] = password[i];
                i = i + 1;
            }
            assert(password@.take(i as int) =~= password@);
            Ok(TcpMd5Key { addr: v4.octets(), keylen: password.len() as u16, key })
        },
        IpAddr::V6(_) => Err(
            IoError {
                kind: IoErrorKind::Unsupported,
                message: "TCP_MD5SIG not yet wired for IPv6 peers".to_string(),
            },
        ),
    }
}

} // verus!
