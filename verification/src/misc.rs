//! The inert parts of the surface and the three C string routines that the
//! protocol engine links against.

use vstd::prelude::*;
use crate::constants::{c_int, LIBUSB_CAP_HAS_CAPABILITY};

verus! {

/// The version record of the native library.
#[derive(Debug, Clone, Copy, PartialEq, Eq)]
pub struct libusb_version {
    pub major: u16,
    pub minor: u16,
    pub micro: u16,
    pub nano: u16,
    pub rc: &'static str,
    pub describe: &'static str,
}

/// The version of this surface: every number zero, both texts empty.
pub fn libusb_get_version() -> (version: libusb_version)
    ensures
        version.major == 0,
        version.minor == 0,
        version.micro == 0,
        version.nano == 0,
        version.rc@ == Seq::<char>::empty(),
        version.describe@ == Seq::<char>::empty(),
{
    proof {
        reveal_strlit("");
        assert(""@ =~= Seq::<char>::empty());
    }
    libusb_version { major: 0, minor: 0, micro: 0, nano: 0, rc: "", describe: "" }
}

/// Whether the surface has a capability: 1 for the capability query itself
/// and 0 for everything else. Hotplug is among what it has not, so callers
/// fall back to polling.
pub fn libusb_has_capability(capability: u32) -> (has: c_int)
    ensures
        has == (if capability == LIBUSB_CAP_HAS_CAPABILITY {
            1i32
        } else {
            0i32
        }),
{
    if capability == LIBUSB_CAP_HAS_CAPABILITY {
        1
    } else {
        0
    }
}

/// The byte that a search for the C `int` `value` looks for: its lowest
/// eight bits.
pub open spec fn needle(value: c_int) -> u8 {
    value as u8
}

/// The offset of the first byte among the first `num` of `buf` that equals
/// the needle, or `None`, which stands for the null pointer, if there is
/// none.
pub fn memchr(buf: &[u8], value: c_int, num: usize) -> (found: Option<usize>)
    requires
        num <= buf@.len(),
    ensures
        match found {
            Some(at) => {
                &&& at < num
                &&& buf@[at as int] == needle(value)
                &&& forall|i: int| 0 <= i < at ==> buf@[i] != needle(value)
            },
            None => forall|i: int| 0 <= i < num ==> buf@[i] != needle(value),
        },
{
    let byte: u8 = #[verifier::truncate] (value as u8);
    let mut at: usize = 0;
    while at < num
        invariant
            at <= num <= buf@.len(),
            byte == needle(value),
            forall|i: int| 0 <= i < at ==> buf@[i] != byte,
        decreases num - at,
    {
        if buf[at] == byte {
            return Some(at);
        }
        at = at + 1;
    }
    None
}

/// Whether `s` holds a terminator: a zero byte.
pub open spec fn terminated(s: Seq<u8>) -> bool {
    exists|i: int| 0 <= i < s.len() && s[i] == 0
}

/// The length of the C string at the start of `s`: the number of bytes in
/// front of its first zero byte, or all of `s` if it holds none.
pub open spec fn c_len(s: Seq<u8>) -> int
    decreases s.len(),
{
    if s.len() == 0 || s[0] == 0 {
        0
    } else {
        1 + c_len(s.drop_first())
    }
}

/// The length of a C string lies within its bytes; no byte in front of it
/// is zero; the byte at it, if there is one, is the terminator; and there is
/// one exactly if the bytes hold a terminator at all.
pub proof fn lemma_c_len(s: Seq<u8>)
    ensures
        0 <= c_len(s) <= s.len(),
        forall|i: int| 0 <= i < c_len(s) ==> s[i] != 0,
        c_len(s) < s.len() ==> s[c_len(s)] == 0,
        terminated(s) <==> c_len(s) < s.len(),
    decreases s.len(),
{
    if s.len() > 0 && s[0] != 0 {
        let rest = s.drop_first();
        lemma_c_len(rest);
        assert forall|i: int| 0 <= i < c_len(s) implies s[i] != 0 by {
            if i > 0 {
                assert(s[i] == rest[i - 1]);
            }
        }
        if c_len(s) < s.len() {
            assert(s[c_len(s)] == rest[c_len(rest)]);
        }
        if terminated(s) {
            let i = choose|i: int| 0 <= i < s.len() && s[i] == 0;
            assert(rest[i - 1] == 0);
        }
        if terminated(rest) {
            let i = choose|i: int| 0 <= i < rest.len() && rest[i] == 0;
            assert(s[i + 1] == 0);
        }
    }
}

/// Copies the C string `src` into the first `n` bytes of `dst`: its bytes as
/// far as `n` allows, then zero bytes up to `n`. A string of `n` bytes or
/// more gets no terminator. Behind the first `n` bytes `dst` stays as it is.
pub fn strncpy(dst: &mut Vec<u8>, src: &[u8], n: usize)
    requires
        n <= old(dst)@.len(),
        terminated(src@) || n <= src@.len(),
    ensures
        final(dst)@.len() == old(dst)@.len(),
        forall|i: int|
            0 <= i < n ==> final(dst)@[i] == (if i < c_len(src@) {
                src@[i]
            } else {
                0u8
            }),
        forall|i: int| n <= i < old(dst)@.len() ==> final(dst)@[i] == old(dst)@[i],
{
    proof {
        lemma_c_len(src@);
    }
    let mut i: usize = 0;
    while i < n && src[i] != 0
        invariant
            i <= n <= dst@.len(),
            dst@.len() == old(dst)@.len(),
            i <= c_len(src@) <= src@.len(),
            terminated(src@) || n <= src@.len(),
            terminated(src@) <==> c_len(src@) < src@.len(),
            forall|k: int| 0 <= k < c_len(src@) ==> src@[k] != 0,
            c_len(src@) < src@.len() ==> src@[c_len(src@)] == 0,
            forall|k: int| 0 <= k < i ==> dst@[k] == src@[k],
            forall|k: int| n <= k < old(dst)@.len() ==> dst@[k] == old(dst)@[k],
        decreases n - i,
    {
        dst[i] = src[i];
        i = i + 1;
    }
    let ghost copied = i;
    while i < n
        invariant
            copied <= i <= n <= dst@.len(),
            dst@.len() == old(dst)@.len(),
            forall|k: int| 0 <= k < copied ==> dst@[k] == src@[k],
            forall|k: int| copied <= k < i ==> dst@[k] == 0,
            forall|k: int| n <= k < old(dst)@.len() ==> dst@[k] == old(dst)@[k],
        decreases n - i,
    {
        dst[i] = 0;
        i = i + 1;
    }
}

/// The length of the C string `cs`.
pub fn strlen(cs: &[u8]) -> (len: usize)
    requires
        terminated(cs@),
    ensures
        len == c_len(cs@),
        len < cs@.len(),
        cs@[len as int] == 0,
        forall|i: int| 0 <= i < len ==> cs@[i] != 0,
{
    proof {
        lemma_c_len(cs@);
    }
    let mut i: usize = 0;
    while cs[i] != 0
        invariant
            i <= c_len(cs@) < cs@.len(),
            forall|k: int| 0 <= k < c_len(cs@) ==> cs@[k] != 0,
            cs@[c_len(cs@)] == 0,
        decreases cs@.len() - i,
    {
        i = i + 1;
    }
    i
}

} // verus!
