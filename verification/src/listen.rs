//! Where the server listens: a socket handed down by systemd, a Unix socket, or a TCP port.
use crate::text::{
    append, chars_of, lossy_text, owned, parse_unsigned, read_signed, starts_with_at, string_of,
};
use vstd::prelude::*;

verus! {

/// What becomes of sockets that systemd may have handed down.
#[derive(Clone, Copy, Debug, PartialEq, Eq, Structural)]
pub enum Inherited {
    /// There are none for this process; the environment is left as it is.
    NotOurs,
    /// The environment names none; its variables are removed.
    Empty,
    /// The first one is used; the environment's variables are removed.
    First { ignored_others: bool },
}

/// The number in an environment variable, where it holds one.
pub open spec fn pid_in(var: Option<&str>) -> Option<nat> {
    match var {
        Some(s) => crate::text::decimal(crate::text::unsigned_digits(s@), u32::MAX as nat),
        None => None,
    }
}

/// The signed number in an environment variable, where it holds one.
pub open spec fn fds_in(var: Option<&str>) -> Option<int> {
    match var {
        Some(s) => crate::text::signed_decimal(s@),
        None => None,
    }
}

/// What becomes of sockets handed down, by the process and the number that the environment
/// names.
pub open spec fn inheritance(
    listen_pid: Option<&str>,
    listen_fds: Option<&str>,
    pid: u32,
) -> Inherited {
    if pid_in(listen_pid) != Some(pid as nat) {
        Inherited::NotOurs
    } else {
        match fds_in(listen_fds) {
            None => Inherited::NotOurs,
            Some(n) => if n <= 0 {
                Inherited::Empty
            } else {
                Inherited::First { ignored_others: n > 1 }
            },
        }
    }
}

/// What becomes of sockets handed down by systemd.
pub fn inherited_sockets(listen_pid: Option<&str>, listen_fds: Option<&str>, pid: u32) -> (r:
    Inherited)
    ensures
        r == inheritance(listen_pid, listen_fds, pid),
{
    let named: u64 = match listen_pid {
        Some(s) => match parse_unsigned(s, u32::MAX as u64) {
            Some(n) => n,
            None => return Inherited::NotOurs,
        },
        None => return Inherited::NotOurs,
    };
    if named != pid as u64 {
        return Inherited::NotOurs;
    }
    let fds: i32 = match listen_fds {
        Some(s) => {
            let chars: Vec<char> = chars_of(s);
            assert(chars@.skip(0) =~= chars@);
            match read_signed(&chars, 0) {
                Some(n) => n,
                None => return Inherited::NotOurs,
            }
        },
        None => return Inherited::NotOurs,
    };
    if fds <= 0 {
        Inherited::Empty
    } else {
        Inherited::First { ignored_others: fds > 1 }
    }
}

/// What kind of listener a socket handed down gives.
#[derive(Clone, Copy, Debug, PartialEq, Eq, Structural)]
pub enum Kind {
    Unix,
    Tcp,
}

/// The kind of listener that a socket handed down gives, by whether its family is that of Unix
/// sockets or one of the internet families; any other is refused.
pub fn inherited_kind(unix: bool, inet: bool) -> (r: Option<Kind>)
    ensures
        r == (if unix {
            Some(Kind::Unix)
        } else if inet {
            Some(Kind::Tcp)
        } else {
            None
        }),
{
    if unix {
        Some(Kind::Unix)
    } else if inet {
        Some(Kind::Tcp)
    } else {
        None
    }
}

/// Where to listen.
pub enum Target {
    /// A Unix socket at a path.
    Unix(String),
    /// A TCP address and port.
    Tcp(String),
}

/// Where to listen, as mathematical values.
pub enum TargetView {
    Unix(Seq<char>),
    Tcp(Seq<char>),
}

impl View for Target {
    type V = TargetView;

    open spec fn view(&self) -> TargetView {
        match self {
            Target::Unix(p) => TargetView::Unix(p@),
            Target::Tcp(a) => TargetView::Tcp(a@),
        }
    }
}

/// A text without the prefixes `unix:` that it begins with.
pub open spec fn without_scheme(s: Seq<char>) -> Seq<char>
    decreases s.len(),
{
    if crate::text::has_prefix(s, "unix:"@) && "unix:"@.len() > 0 {
        without_scheme(s.skip("unix:"@.len() as int))
    } else {
        s
    }
}

/// Where an address and a port say to listen.
pub open spec fn target(addr: Seq<char>, port: Seq<char>) -> TargetView {
    if crate::text::has_prefix(addr, "unix:"@) {
        TargetView::Unix(without_scheme(addr))
    } else {
        TargetView::Tcp(addr + ":"@ + port)
    }
}

/// Where an address and a port say to listen.
pub fn listen_target(addr: &str, port: &str) -> (r: Target)
    ensures
        r@ == target(addr@, port@),
{
    let chars: Vec<char> = chars_of(addr);
    let prefix: Vec<char> = chars_of("unix:");
    proof {
        reveal_strlit("unix:");
        assert(chars@.skip(0) =~= chars@);
    }
    if starts_with_at(&chars, 0, &prefix) {
        let mut from: usize = 0;
        while starts_with_at(&chars, from, &prefix)
            invariant
                chars@ == addr@,
                prefix@ == "unix:"@,
                prefix@.len() == 5,
                from <= chars@.len(),
                without_scheme(addr@) == without_scheme(chars@.skip(from as int)),
            decreases chars.len() - from,
        {
            assert(chars@.skip(from as int).skip(5) =~= chars@.skip(from + 5));
            from += prefix.len();
        }
        assert(chars@.subrange(from as int, chars@.len() as int) =~= chars@.skip(from as int));
        return Target::Unix(string_of(&chars, from, chars.len()));
    }
    let mut bind: String = owned(addr);
    append(&mut bind, ":");
    append(&mut bind, port);
    Target::Tcp(bind)
}

/// The text of bytes up to the first zero.
pub open spec fn c_text(buf: Seq<u8>) -> Seq<char> {
    crate::text::utf8_lossy(before_zero(buf))
}

/// The bytes before the first zero.
pub open spec fn before_zero(buf: Seq<u8>) -> Seq<u8>
    decreases buf.len(),
{
    if buf.len() == 0 || buf[0] == 0 {
        Seq::empty()
    } else {
        seq![buf[0]] + before_zero(buf.skip(1))
    }
}

/// The text of bytes up to the first zero.
pub fn c_chars_to_string(buf: &[u8]) -> (r: String)
    ensures
        r@ == c_text(buf@),
        vstd::utf8::valid_utf8(before_zero(buf@)) ==> r@ == vstd::utf8::decode_utf8(
            before_zero(buf@),
        ),
{
    let mut bytes: Vec<u8> = Vec::new();
    let mut i: usize = 0;
    assert(buf@.skip(0) =~= buf@);
    assert(bytes@ + before_zero(buf@) =~= before_zero(buf@));
    while i < buf.len() && buf[i] != 0
        invariant
            i <= buf@.len(),
            before_zero(buf@) == bytes@ + before_zero(buf@.skip(i as int)),
        decreases buf.len() - i,
    {
        bytes.push(buf[i]);
        proof {
            let rest = buf@.skip(i as int);
            assert(rest.skip(1) =~= buf@.skip(i + 1));
            assert(before_zero(rest) =~= seq![buf@[i as int]] + before_zero(rest.skip(1)));
            assert(before_zero(buf@) =~= bytes@ + before_zero(buf@.skip(i + 1)));
        }
        i += 1;
    }
    assert(before_zero(buf@.skip(i as int)) =~= Seq::empty());
    assert(before_zero(buf@) =~= bytes@);
    lossy_text(bytes.as_slice())
}

} // verus!
