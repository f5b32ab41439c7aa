//! Adapter selection and the decoding helpers the platform adapters share.

use vstd::prelude::*;

pub mod darwin;
pub mod fanotify;
pub mod inotify;

verus! {

/// Which platform adapter drives the watch loop.
#[derive(Clone, Copy, PartialEq, Eq, Structural, Debug)]
pub enum AdapterChoice {
    Darwin,
    Fanotify,
    Inotify,
}

/// The operating system the process runs on.
#[derive(Clone, Copy, PartialEq, Eq, Structural, Debug)]
pub enum Platform {
    MacOs,
    Linux,
    Unsupported,
}

/// The adapter to run: FSEvents on macOS; on Linux, fanotify for the
/// privileged user and inotify otherwise; none elsewhere.
pub open spec fn spec_select_adapter(os: Platform, euid: u32) -> Option<AdapterChoice> {
    match os {
        Platform::MacOs => Some(AdapterChoice::Darwin),
        Platform::Linux => if euid == 0 {
            Some(AdapterChoice::Fanotify)
        } else {
            Some(AdapterChoice::Inotify)
        },
        Platform::Unsupported => None,
    }
}

/// Select the adapter for this OS and effective user id.
pub fn select_adapter(os: Platform, euid: u32) -> (r: Option<AdapterChoice>)
    ensures
        r == spec_select_adapter(os, euid),
{
    match os {
        Platform::MacOs => Some(AdapterChoice::Darwin),
        Platform::Linux => if euid == 0 {
            Some(AdapterChoice::Fanotify)
        } else {
            Some(AdapterChoice::Inotify)
        },
        Platform::Unsupported => None,
    }
}

/// What a non-blocking read of the control channel found.
#[derive(Clone, Copy, PartialEq, Eq, Structural, Debug)]
pub enum CtlSignal {
    /// A value arrived: `false` asks the worker to stop, `true` is
    /// reserved and means "continue".
    Got(bool),
    /// Nothing arrived; the consumer is still connected.
    Nothing,
    /// The consumer has gone away.
    Disconnected,
}

/// Whether the worker loop should keep running after reading the control
/// channel: yes while nothing arrived or `true` arrived; no on `false`
/// or when the consumer disconnected.
pub fn still_living(signal: CtlSignal) -> (r: bool)
    ensures
        r == (signal == CtlSignal::Nothing || signal == CtlSignal::Got(true)),
{
    match signal {
        CtlSignal::Nothing => true,
        CtlSignal::Got(continue_living) => continue_living,
        CtlSignal::Disconnected => false,
    }
}

/// The little-endian value of two bytes.
pub open spec fn spec_u16_le(b: Seq<u8>) -> u16
    recommends
        b.len() == 2,
{
    (b[0] as u16) | ((b[1] as u16) << 8)
}

/// The little-endian value of four bytes.
pub open spec fn spec_u32_le(b: Seq<u8>) -> u32
    recommends
        b.len() == 4,
{
    (b[0] as u32) | ((b[1] as u32) << 8) | ((b[2] as u32) << 16) | ((b[3] as u32) << 24)
}

/// The little-endian value of eight bytes.
pub open spec fn spec_u64_le(b: Seq<u8>) -> u64
    recommends
        b.len() == 8,
{
    (b[0] as u64) | ((b[1] as u64) << 8) | ((b[2] as u64) << 16) | ((b[3] as u64) << 24) | (
    (b[4] as u64) << 32) | ((b[5] as u64) << 40) | ((b[6] as u64) << 48) | ((b[7] as u64) << 56)
}

/// Read a little-endian `u16` at `off`.
pub fn u16_le_at(buf: &Vec<u8>, off: usize) -> (r: u16)
    requires
        off + 2 <= buf@.len(),
    ensures
        r == spec_u16_le(buf@.subrange(off as int, off as int + 2)),
{
    let n = buf.len();
    proof {
        let b = buf@.subrange(off as int, off as int + 2);
        assert(b[0] == buf@[off as int]);
        assert(b[1] == buf@[off as int + 1]);
    }
    (buf[off] as u16) | ((buf[off + 1] as u16) << 8)
}

/// Read a little-endian `u32` at `off`.
pub fn u32_le_at(buf: &Vec<u8>, off: usize) -> (r: u32)
    requires
        off + 4 <= buf@.len(),
    ensures
        r == spec_u32_le(buf@.subrange(off as int, off as int + 4)),
{
    let n = buf.len();
    proof {
        let b = buf@.subrange(off as int, off as int + 4);
        assert(b[0] == buf@[off as int]);
        assert(b[1] == buf@[off as int + 1]);
        assert(b[2] == buf@[off as int + 2]);
        assert(b[3] == buf@[off as int + 3]);
    }
    (buf[off] as u32) | ((buf[off + 1] as u32) << 8) | ((buf[off + 2] as u32) << 16) | ((buf[off
        + 3] as u32) << 24)
}

/// Read a little-endian `u64` at `off`.
pub fn u64_le_at(buf: &Vec<u8>, off: usize) -> (r: u64)
    requires
        off + 8 <= buf@.len(),
    ensures
        r == spec_u64_le(buf@.subrange(off as int, off as int + 8)),
{
    let n = buf.len();
    proof {
        let b = buf@.subrange(off as int, off as int + 8);
        assert(b[0] == buf@[off as int]);
        assert(b[1] == buf@[off as int + 1]);
        assert(b[2] == buf@[off as int + 2]);
        assert(b[3] == buf@[off as int + 3]);
        assert(b[4] == buf@[off as int + 4]);
        assert(b[5] == buf@[off as int + 5]);
        assert(b[6] == buf@[off as int + 6]);
        assert(b[7] == buf@[off as int + 7]);
    }
    (buf[off] as u64) | ((buf[off + 1] as u64) << 8) | ((buf[off + 2] as u64) << 16) | ((buf[off
        + 3] as u64) << 24) | ((buf[off + 4] as u64) << 32) | ((buf[off + 5] as u64) << 40) | ((
    buf[off + 6] as u64) << 48) | ((buf[off + 7] as u64) << 56)
}

/// Copy the bytes of `buf` in `[start, end)`.
pub fn copy_range(buf: &Vec<u8>, start: usize, end: usize) -> (r: Vec<u8>)
    requires
        start <= end <= buf@.len(),
    ensures
        r@ == buf@.subrange(start as int, end as int),
{
    let mut r: Vec<u8> = Vec::new();
    let mut i: usize = start;
    while i < end
        invariant
            start <= i <= end <= buf@.len(),
            r@ == buf@.subrange(start as int, i as int),
        decreases end - i,
    {
        r.push(buf[i]);
        proof {
            assert(r@ =~= buf@.subrange(start as int, i as int + 1));
        }
        i = i + 1;
    }
    r
}

/// The zero-free prefix of a byte sequence: everything before the first
/// NUL, or the whole sequence when it holds none.
pub open spec fn spec_c_name(b: Seq<u8>) -> Seq<u8>
    decreases b.len(),
{
    if b.len() == 0 {
        b
    } else if b[0] == 0 {
        Seq::<u8>::empty()
    } else {
        seq![b[0]] + spec_c_name(b.skip(1))
    }
}

proof fn lemma_c_name_take(b: Seq<u8>, k: int)
    requires
        0 <= k <= b.len(),
        forall|j: int| 0 <= j < k ==> b[j] != 0,
        k < b.len() ==> b[k] == 0,
    ensures
        spec_c_name(b) == b.take(k),
    decreases b.len(),
{
    if b.len() == 0 {
        assert(spec_c_name(b) =~= b.take(k));
    } else if k == 0 {
        assert(b[0] == 0);
        assert(spec_c_name(b) =~= b.take(0));
    } else {
        assert(b[0] != 0);
        lemma_c_name_take(b.skip(1), k - 1);
        assert(b.skip(1).take(k - 1) =~= b.take(k).skip(1));
        assert(spec_c_name(b) =~= seq![b[0]] + b.skip(1).take(k - 1));
        assert(seq![b[0]] + b.take(k).skip(1) =~= b.take(k));
    }
}

/// The bytes of `b` before its first NUL.
pub fn c_name(b: &Vec<u8>) -> (r: Vec<u8>)
    ensures
        r@ == spec_c_name(b@),
{
    let n = b.len();
    let mut i: usize = 0;
    while i < n
        invariant
            i <= n,
            n == b@.len(),
            forall|j: int| 0 <= j < i ==> b@[j] != 0,
        decreases n - i,
    {
        if b[i] == 0 {
            proof {
                lemma_c_name_take(b@, i as int);
            }
            return copy_range(b, 0, i);
        }
        i = i + 1;
    }
    proof {
        lemma_c_name_take(b@, n as int);
        assert(b@.take(n as int) =~= b@);
    }
    copy_range(b, 0, n)
}

/// What lossy UTF-8 decoding makes of a byte sequence; a function of the
/// bytes alone.
pub uninterp spec fn lossy_utf8(b: Seq<u8>) -> Seq<char>;

/// Relies on String::from_utf8_lossy: the result depends on the bytes
/// alone, and ASCII bytes decode to the same characters.
#[verifier::external_body]
pub(crate) fn bytes_to_string(b: &Vec<u8>) -> (r: String)
    ensures
        r@ == lossy_utf8(b@),
        (forall|i: int| 0 <= i < b@.len() ==> b@[i] < 0x80) ==> r@ == b@.map_values(
            |x: u8| x as char,
        ),
{
    String::from_utf8_lossy(b.as_slice()).into_owned()
}

} // verus!
