//! Verified rendering of numbers, addresses, permissions and errors as
//! strings, mirroring at the specification level exactly what the
//! executable builders produce.

use crate::types::Error;
use crate::types::PERM_EXEC;
use crate::types::PERM_READ;
use crate::types::PERM_WRITE;
use crate::types::Perm;
use crate::types::VirtAddr;
use vstd::arithmetic::div_mod::lemma_div_decreases;
use vstd::prelude::*;
use vstd::string::StringExecFns;

verus! {

/// The decimal digit character for `d`.
pub open spec fn spec_dec_digit(d: int) -> char {
    if d == 0 {
        '0'
    } else if d == 1 {
        '1'
    } else if d == 2 {
        '2'
    } else if d == 3 {
        '3'
    } else if d == 4 {
        '4'
    } else if d == 5 {
        '5'
    } else if d == 6 {
        '6'
    } else if d == 7 {
        '7'
    } else if d == 8 {
        '8'
    } else {
        '9'
    }
}

/// The lower-case hexadecimal digit character for `d`.
pub open spec fn spec_hex_digit(d: int) -> char {
    if d < 10 {
        spec_dec_digit(d)
    } else if d == 10 {
        'a'
    } else if d == 11 {
        'b'
    } else if d == 12 {
        'c'
    } else if d == 13 {
        'd'
    } else if d == 14 {
        'e'
    } else {
        'f'
    }
}

/// The decimal rendering of `n`, most significant digit first.
pub open spec fn spec_udec(n: nat) -> Seq<char>
    decreases n,
{
    if n < 10 {
        seq![spec_dec_digit(n as int)]
    } else {
        spec_udec(n / 10).push(spec_dec_digit((n % 10) as int))
    }
}

/// The hexadecimal rendering of `n`, without a prefix.
pub open spec fn spec_uhex(n: nat) -> Seq<char>
    decreases n,
{
    if n < 16 {
        seq![spec_hex_digit(n as int)]
    } else {
        spec_uhex(n / 16).push(spec_hex_digit((n % 16) as int))
    }
}

/// The display form of a virtual address: `0x` followed by hex digits.
pub open spec fn spec_vaddr_display(a: VirtAddr) -> Seq<char> {
    "0x"@ + spec_uhex(a.0 as nat)
}

/// The three-character `RWX` display form of permissions, `-` for absent
/// flags; the RAW flag is not displayed.
pub open spec fn spec_perm_display(p: Perm) -> Seq<char> {
    seq![
        if p.has(PERM_READ) {
            'R'
        } else {
            '-'
        },
        if p.has(PERM_WRITE) {
            'W'
        } else {
            '-'
        },
        if p.has(PERM_EXEC) {
            'X'
        } else {
            '-'
        },
    ]
}

/// The display form of each memory error.
pub open spec fn spec_error_display(e: Error) -> Seq<char> {
    match e {
        Error::InvalidAddress { addr, size } => "invalid address: addr="@ + spec_vaddr_display(
            addr,
        ) + " size="@ + spec_udec(size as nat),
        Error::AddressIntegerOverflow { addr, size } => "integer overflow: addr="@
            + spec_vaddr_display(addr) + " size="@ + spec_udec(size as nat),
        Error::ReadFault { addr, size } => "read fault: addr="@ + spec_vaddr_display(addr)
            + " size="@ + spec_udec(size as nat),
        Error::WriteFault { addr, size } => "write fault: addr="@ + spec_vaddr_display(addr)
            + " size="@ + spec_udec(size as nat),
        Error::ExecFault { addr, size } => "exec fault: addr="@ + spec_vaddr_display(addr)
            + " size="@ + spec_udec(size as nat),
        Error::UninitFault { addr, size } => "uninit fault: addr="@ + spec_vaddr_display(addr)
            + " size="@ + spec_udec(size as nat),
        Error::UnkFault { addr, size, exp, cur } => "unknown fault: addr="@ + spec_vaddr_display(
            addr,
        ) + " size="@ + spec_udec(size as nat) + " exp="@ + spec_perm_display(exp) + " cur="@
            + spec_perm_display(cur),
        Error::InvalidFree { addr } => "invalid free: addr="@ + spec_vaddr_display(addr),
    }
}

/// The literal for one decimal digit.
fn dec_digit_str(d: usize) -> (r: &'static str)
    requires
        d < 10,
    ensures
        r@ == seq![spec_dec_digit(d as int)],
{
    proof {
        reveal_strlit("0");
        reveal_strlit("1");
        reveal_strlit("2");
        reveal_strlit("3");
        reveal_strlit("4");
        reveal_strlit("5");
        reveal_strlit("6");
        reveal_strlit("7");
        reveal_strlit("8");
        reveal_strlit("9");
    }
    match d {
        0 => "0",
        1 => "1",
        2 => "2",
        3 => "3",
        4 => "4",
        5 => "5",
        6 => "6",
        7 => "7",
        8 => "8",
        _ => "9",
    }
}

/// The literal for one hexadecimal digit.
fn hex_digit_str(d: usize) -> (r: &'static str)
    requires
        d < 16,
    ensures
        r@ == seq![spec_hex_digit(d as int)],
{
    proof {
        reveal_strlit("a");
        reveal_strlit("b");
        reveal_strlit("c");
        reveal_strlit("d");
        reveal_strlit("e");
        reveal_strlit("f");
    }
    if d < 10 {
        dec_digit_str(d)
    } else {
        match d {
            10 => "a",
            11 => "b",
            12 => "c",
            13 => "d",
            14 => "e",
            _ => "f",
        }
    }
}

/// Renders `n` in decimal.
pub fn udec_string(n: usize) -> (s: String)
    ensures
        s@ == spec_udec(n as nat),
    decreases n,
{
    let d = dec_digit_str(n % 10);
    if n < 10 {
        d.to_owned()
    } else {
        proof {
            lemma_div_decreases(n as int, 10);
        }
        let mut s = udec_string(n / 10);
        s.append(d);
        proof {
            assert(s@ =~= spec_udec((n / 10) as nat).push(spec_dec_digit((n % 10) as int)));
        }
        s
    }
}

/// Renders `n` in hexadecimal, without a prefix.
pub fn uhex_string(n: usize) -> (s: String)
    ensures
        s@ == spec_uhex(n as nat),
    decreases n,
{
    let d = hex_digit_str(n % 16);
    if n < 16 {
        d.to_owned()
    } else {
        proof {
            lemma_div_decreases(n as int, 16);
        }
        let mut s = uhex_string(n / 16);
        s.append(d);
        proof {
            assert(s@ =~= spec_uhex((n / 16) as nat).push(spec_hex_digit((n % 16) as int)));
        }
        s
    }
}

impl Perm {
    /// The three-character `RWX` display form of the permissions.
    pub fn display(&self) -> (s: String)
        ensures
            s@ == spec_perm_display(*self),
    {
        proof {
            reveal_strlit("RWX");
            reveal_strlit("RW-");
            reveal_strlit("R-X");
            reveal_strlit("R--");
            reveal_strlit("-WX");
            reveal_strlit("-W-");
            reveal_strlit("--X");
            reveal_strlit("---");
        }
        let r = self.0 & PERM_READ != 0;
        let w = self.0 & PERM_WRITE != 0;
        let x = self.0 & PERM_EXEC != 0;
        let lit = if r {
            if w {
                if x {
                    "RWX"
                } else {
                    "RW-"
                }
            } else {
                if x {
                    "R-X"
                } else {
                    "R--"
                }
            }
        } else {
            if w {
                if x {
                    "-WX"
                } else {
                    "-W-"
                }
            } else {
                if x {
                    "--X"
                } else {
                    "---"
                }
            }
        };
        proof {
            assert(lit@ =~= spec_perm_display(*self));
        }
        lit.to_owned()
    }
}

impl VirtAddr {
    /// The display form of the address: hexadecimal with a `0x` prefix.
    pub fn display(&self) -> (s: String)
        ensures
            s@ == spec_vaddr_display(*self),
    {
        let mut s = "0x".to_owned();
        let hex = uhex_string(self.0);
        s.append(hex.as_str());
        s
    }
}

impl Error {
    /// The display form of the error: its kind and the range it reports.
    pub fn display(&self) -> (s: String)
        ensures
            s@ == spec_error_display(*self),
    {
        match self {
            Error::InvalidAddress { addr, size } => {
                describe_range("invalid address: addr=", *addr, *size)
            },
            Error::AddressIntegerOverflow { addr, size } => {
                describe_range("integer overflow: addr=", *addr, *size)
            },
            Error::ReadFault { addr, size } => describe_range("read fault: addr=", *addr, *size),
            Error::WriteFault { addr, size } => describe_range("write fault: addr=", *addr, *size),
            Error::ExecFault { addr, size } => describe_range("exec fault: addr=", *addr, *size),
            Error::UninitFault { addr, size } => {
                describe_range("uninit fault: addr=", *addr, *size)
            },
            Error::UnkFault { addr, size, exp, cur } => {
                let mut s = describe_range("unknown fault: addr=", *addr, *size);
                s.append(" exp=");
                let e = exp.display();
                s.append(e.as_str());
                s.append(" cur=");
                let c = cur.display();
                s.append(c.as_str());
                s
            },
            Error::InvalidFree { addr } => {
                let mut s = "invalid free: addr=".to_owned();
                let a = addr.display();
                s.append(a.as_str());
                s
            },
        }
    }
}

/// Builds `head` followed by the address and ` size=` with the size.
fn describe_range(head: &str, addr: VirtAddr, size: usize) -> (s: String)
    ensures
        s@ == head@ + spec_vaddr_display(addr) + " size="@ + spec_udec(size as nat),
{
    let mut s = head.to_owned();
    let a = addr.display();
    s.append(a.as_str());
    s.append(" size=");
    let n = udec_string(size);
    s.append(n.as_str());
    s
}

} // verus!
