//! Validation of a harness archive: a gzip-compressed tar stream that must
//! hold, at its root, the two stage scripts `compile` and `run`. Inflation is
//! the gzip library's work; reading the entry names out of the inflated tar
//! stream, and the judgement on them, is this module's own, verified logic.

use std::io::Read;

use vstd::prelude::*;

verus! {

/// Index of the first zero byte in `s`, or `s.len()` when there is none.
pub open spec fn first_nul(s: Seq<u8>) -> nat
    decreases s.len(),
{
    if s.len() == 0 {
        0
    } else if s[0] == 0 {
        0
    } else {
        1 + first_nul(s.drop_first())
    }
}

proof fn lemma_first_nul_at(s: Seq<u8>, i: int)
    requires
        0 <= i <= s.len(),
        forall|k: int| 0 <= k < i ==> s[k] != 0,
        i < s.len() ==> s[i] == 0,
    ensures
        first_nul(s) == i,
    decreases s.len(),
{
    if s.len() != 0 && s[0] != 0 {
        assert forall|k: int| 0 <= k < i - 1 implies s.drop_first()[k] != 0 by {
            assert(s.drop_first()[k] == s[k + 1]);
        }
        lemma_first_nul_at(s.drop_first(), i - 1);
    }
}

/// An ASCII octal digit.
pub open spec fn is_octal(b: u8) -> bool {
    48 <= b && b <= 55
}

/// Length of the leading run of octal digits.
pub open spec fn octal_run(s: Seq<u8>) -> nat
    decreases s.len(),
{
    if s.len() == 0 {
        0
    } else if !is_octal(s[0]) {
        0
    } else {
        1 + octal_run(s.drop_first())
    }
}

proof fn lemma_octal_run_bounds(s: Seq<u8>)
    ensures
        octal_run(s) <= s.len(),
        forall|k: int| 0 <= k < octal_run(s) ==> is_octal(s[k]),
    decreases s.len(),
{
    if s.len() != 0 && is_octal(s[0]) {
        lemma_octal_run_bounds(s.drop_first());
        assert forall|k: int| 0 <= k < octal_run(s) implies is_octal(s[k]) by {
            if k > 0 {
                assert(s.drop_first()[k - 1] == s[k]);
            }
        }
    }
}

proof fn lemma_octal_run_at(s: Seq<u8>, i: int)
    requires
        0 <= i <= s.len(),
        forall|k: int| 0 <= k < i ==> is_octal(s[k]),
        i < s.len() ==> !is_octal(s[i]),
    ensures
        octal_run(s) == i,
    decreases s.len(),
{
    if s.len() != 0 && is_octal(s[0]) {
        assert forall|k: int| 0 <= k < i - 1 implies is_octal(s.drop_first()[k]) by {
            assert(s.drop_first()[k] == s[k + 1]);
        }
        lemma_octal_run_at(s.drop_first(), i - 1);
    }
}

/// The value of an octal digit string.
pub open spec fn octal_val(s: Seq<u8>) -> int
    decreases s.len(),
{
    if s.len() == 0 {
        0
    } else {
        octal_val(s.drop_last()) * 8 + (s.last() - 48)
    }
}

/// Eight to the power `n`.
pub open spec fn pow8(n: nat) -> int
    decreases n,
{
    if n == 0 {
        1
    } else {
        8 * pow8((n - 1) as nat)
    }
}

proof fn lemma_pow8_pos(n: nat)
    ensures
        pow8(n) >= 1,
    decreases n,
{
    if n > 0 {
        lemma_pow8_pos((n - 1) as nat);
    }
}

proof fn lemma_pow8_mono(a: nat, b: nat)
    requires
        a <= b,
    ensures
        pow8(a) <= pow8(b),
    decreases b,
{
    if a < b {
        lemma_pow8_mono(a, (b - 1) as nat);
        lemma_pow8_pos((b - 1) as nat);
    }
}

/// An octal digit string's value is bounded by eight to its length.
proof fn lemma_octal_val_bounds(s: Seq<u8>)
    requires
        forall|k: int| 0 <= k < s.len() ==> is_octal(s[k]),
    ensures
        0 <= octal_val(s) < pow8(s.len()),
    decreases s.len(),
{
    if s.len() > 0 {
        assert forall|k: int| 0 <= k < s.drop_last().len() implies is_octal(s.drop_last()[k]) by {
            assert(s.drop_last()[k] == s[k]);
        }
        lemma_octal_val_bounds(s.drop_last());
    }
}

/// A tar header's entry name: the bytes of the name field up to its first
/// zero byte.
pub open spec fn name_of(s: Seq<u8>) -> Seq<u8> {
    let f = s.subrange(0, 100);
    f.take(first_nul(f) as int)
}

/// A tar header's entry size: the value of the leading octal digit run of the
/// size field.
pub open spec fn size_of(s: Seq<u8>) -> int {
    let f = s.subrange(124, 136);
    octal_val(f.take(octal_run(f) as int))
}

/// A block of 512 zero bytes, which ends a tar stream.
pub open spec fn zero_block(s: Seq<u8>) -> bool {
    forall|k: int| 0 <= k < 512 ==> s[k] == 0
}

/// How far the next header lies from this one: the header block plus the
/// entry's data rounded up to whole blocks.
pub open spec fn advance_of(s: Seq<u8>) -> int {
    512 + 512 * ((size_of(s) + 511) / 512)
}

/// The entry names of a tar stream, in order: headers are read at block
/// boundaries until the stream is exhausted, a zero block ends it, and a
/// header whose entry overruns the stream is the last one read.
pub open spec fn tar_names(s: Seq<u8>) -> Seq<Seq<u8>>
    decreases s.len(),
    via tar_names_decreases
{
    if s.len() < 512 {
        Seq::empty()
    } else if zero_block(s) {
        Seq::empty()
    } else {
        seq![name_of(s)] + (if advance_of(s) <= s.len() {
            tar_names(s.skip(advance_of(s)))
        } else {
            Seq::empty()
        })
    }
}

/// The size field's run holds only octal digits, so every entry size, and so
/// every header advance, is well defined and positive.
proof fn lemma_advance_pos(s: Seq<u8>)
    ensures
        advance_of(s) >= 512,
{
    let f = s.subrange(124, 136);
    lemma_octal_run_bounds(f);
    assert forall|k: int| 0 <= k < f.take(octal_run(f) as int).len() implies is_octal(
        #[trigger] f.take(octal_run(f) as int)[k],
    ) by {
        assert(f.take(octal_run(f) as int)[k] == f[k]);
    }
    lemma_octal_val_bounds(f.take(octal_run(f) as int));
}

#[via_fn]
proof fn tar_names_decreases(s: Seq<u8>) {
    if s.len() >= 512 && !zero_block(s) {
        lemma_advance_pos(s);
    }
}

/// Reads one header's entry name out of the stream at `off`.
fn read_name(t: &Vec<u8>, off: usize) -> (r: Vec<u8>)
    requires
        off + 512 <= t@.len(),
    ensures
        r@ == name_of(t@.skip(off as int)),
{
    let ghost f = t@.skip(off as int).subrange(0, 100);
    let total = t.len();
    let mut out: Vec<u8> = Vec::new();
    let mut k: usize = 0;
    while k < 100 && t[off + k] != 0
        invariant
            total == t@.len(),
            off + 512 <= total,
            k <= 100,
            f == t@.skip(off as int).subrange(0, 100),
            forall|i: int| 0 <= i < k ==> f[i] != 0,
            out@ =~= f.take(k as int),
        decreases 100 - k,
    {
        out.push(t[off + k]);
        proof {
            assert(f[k as int] == t@[off + k]);
            assert(out@ =~= f.take(k + 1));
        }
        k = k + 1;
    }
    proof {
        if k < 100 {
            assert(f[k as int] == t@[off + k]);
        }
        lemma_first_nul_at(f, k as int);
    }
    out
}

/// Reads one header's entry size out of the stream at `off`.
fn read_size(t: &Vec<u8>, off: usize) -> (r: u64)
    requires
        off + 512 <= t@.len(),
    ensures
        r as int == size_of(t@.skip(off as int)),
        r < 0x1000000000,
{
    let ghost f = t@.skip(off as int).subrange(124, 136);
    let total = t.len();
    let mut v: u64 = 0;
    let mut k: usize = 0;
    while k < 12 && 48 <= t[off + 124 + k] && t[off + 124 + k] <= 55
        invariant
            total == t@.len(),
            off + 512 <= total,
            k <= 12,
            f == t@.skip(off as int).subrange(124, 136),
            forall|i: int| 0 <= i < k ==> is_octal(f[i]),
            v as int == octal_val(f.take(k as int)),
            (v as int) < pow8(k as nat),
        decreases 12 - k,
    {
        let d = t[off + 124 + k];
        proof {
            assert(f[k as int] == t@[off + 124 + k]);
            assert(f.take(k + 1).drop_last() =~= f.take(k as int));
            assert(f.take(k + 1).last() == f[k as int]);
            lemma_pow8_mono(k as nat, 11);
            reveal_with_fuel(pow8, 13);
            assert(pow8(11) == 0x200000000);
        }
        v = v * 8 + (d - 48) as u64;
        k = k + 1;
    }
    proof {
        if k < 12 {
            assert(f[k as int] == t@[off + 124 + k]);
        }
        lemma_octal_run_at(f, k as int);
        reveal_with_fuel(pow8, 13);
        assert(pow8(12) == 0x1000000000);
    }
    v
}

/// Lists the entry names of a tar stream, in order.
pub fn tar_entry_names(t: &Vec<u8>) -> (r: Vec<Vec<u8>>)
    ensures
        r@.map_values(|n: Vec<u8>| n@) == tar_names(t@),
{
    let mut out: Vec<Vec<u8>> = Vec::new();
    let mut off: usize = 0;
    proof {
        assert(t@.skip(0) =~= t@);
        assert(out@.map_values(|n: Vec<u8>| n@) + tar_names(t@) =~= tar_names(t@));
    }
    while t.len() - off >= 512
        invariant
            off <= t@.len(),
            tar_names(t@) == out@.map_values(|n: Vec<u8>| n@) + tar_names(t@.skip(off as int)),
        decreases t@.len() - off,
    {
        let ghost rem = t@.skip(off as int);
        let total = t.len();
        let mut allzero = true;
        let mut k: usize = 0;
        while k < 512
            invariant
                total == t@.len(),
                off + 512 <= total,
                k <= 512,
                rem == t@.skip(off as int),
                allzero <==> (forall|i: int| 0 <= i < k ==> rem[i] == 0),
            decreases 512 - k,
        {
            if t[off + k] != 0 {
                proof {
                    assert(rem[k as int] == t@[off + k]);
                }
                allzero = false;
            }
            k = k + 1;
        }
        if allzero {
            proof {
                assert(tar_names(rem) =~= Seq::<Seq<u8>>::empty());
                assert(tar_names(t@) =~= out@.map_values(|n: Vec<u8>| n@));
            }
            return out;
        }
        let name = read_name(t, off);
        let size = read_size(t, off);
        let adv: u64 = 512 + 512 * ((size + 511) / 512);
        let ghost out0 = out@;
        out.push(name);
        proof {
            assert(adv as int == advance_of(rem));
            assert(out@.map_values(|n: Vec<u8>| n@) =~= out0.map_values(|n: Vec<u8>| n@)
                + seq![name_of(rem)]);
        }
        if adv <= (t.len() - off) as u64 {
            proof {
                assert(rem.skip(adv as int) =~= t@.skip(off + adv as int));
                assert(tar_names(t@) =~= out@.map_values(|n: Vec<u8>| n@) + tar_names(
                    t@.skip(off + adv as int),
                ));
            }
            off = off + adv as usize;
        } else {
            proof {
                assert(tar_names(rem) =~= seq![name_of(rem)]);
                assert(tar_names(t@) =~= out@.map_values(|n: Vec<u8>| n@));
            }
            return out;
        }
    }
    proof {
        assert(tar_names(t@.skip(off as int)) =~= Seq::<Seq<u8>>::empty());
        assert(tar_names(t@) =~= out@.map_values(|n: Vec<u8>| n@));
    }
    out
}

/// The bytes of the required compile-stage script's entry name, `compile`.
pub open spec fn compile_name() -> Seq<u8> {
    seq![99u8, 111u8, 109u8, 112u8, 105u8, 108u8, 101u8]
}

/// The bytes of the required run-stage script's entry name, `run`.
pub open spec fn run_name() -> Seq<u8> {
    seq![114u8, 117u8, 110u8]
}

/// A harness tar stream is whole when both stage scripts stand among its
/// entries under their reserved names.
pub open spec fn harness_scripts_ok(t: Seq<u8>) -> bool {
    tar_names(t).contains(compile_name()) && tar_names(t).contains(run_name())
}

/// What the gzip library makes of a byte stream: its inflated bytes, or
/// nothing when the stream is not a well-formed gzip member.
pub uninterp spec fn gunzip_of(b: Seq<u8>) -> Option<Seq<u8>>;

/// Relies on flate2::read::GzDecoder: inflating a gzip member is a pure
/// function of the compressed bytes; reading the decoder to its end yields
/// the inflated bytes, or an error when the input is not well-formed gzip.
#[verifier::external_body]
fn gunzip(b: &Vec<u8>) -> (r: Option<Vec<u8>>)
    ensures
        (r is Some <==> gunzip_of(b@) is Some),
        (r matches Some(v) ==> gunzip_of(b@) matches Some(t) && v@ == t),
{
    let mut d = flate2::read::GzDecoder::new(b.as_slice());
    let mut out: Vec<u8> = Vec::new();
    match d.read_to_end(&mut out) {
        Ok(_) => Some(out),
        Err(_) => None,
    }
}

/// Whether `n` is the compile script's entry name.
fn is_compile_name(n: &Vec<u8>) -> (r: bool)
    ensures
        r == (n@ == compile_name()),
{
    let r = n.len() == 7 && n[0] == 99 && n[1] == 111 && n[2] == 109 && n[3] == 112 && n[4] == 105
        && n[5] == 108 && n[6] == 101;
    proof {
        if r {
            assert(n@ =~= compile_name());
        }
    }
    r
}

/// Whether `n` is the run script's entry name.
fn is_run_name(n: &Vec<u8>) -> (r: bool)
    ensures
        r == (n@ == run_name()),
{
    let r = n.len() == 3 && n[0] == 114 && n[1] == 117 && n[2] == 110;
    proof {
        if r {
            assert(n@ =~= run_name());
        }
    }
    r
}

/// Whether a tar stream's entries hold both stage scripts.
fn scripts_present(t: &Vec<u8>) -> (r: bool)
    ensures
        r == harness_scripts_ok(t@),
{
    let names = tar_entry_names(t);
    let ghost nsv = names@.map_values(|n: Vec<u8>| n@);
    let mut has_compile = false;
    let mut has_run = false;
    let mut k: usize = 0;
    while k < names.len()
        invariant
            nsv == names@.map_values(|n: Vec<u8>| n@),
            k <= names.len(),
            has_compile <==> (exists|j: int| 0 <= j < k && nsv[j] == compile_name()),
            has_run <==> (exists|j: int| 0 <= j < k && nsv[j] == run_name()),
        decreases names.len() - k,
    {
        proof {
            assert(nsv[k as int] == names@[k as int]@);
        }
        if is_compile_name(&names[k]) {
            has_compile = true;
            proof {
                assert(nsv[k as int] == compile_name());
            }
        }
        if is_run_name(&names[k]) {
            has_run = true;
            proof {
                assert(nsv[k as int] == run_name());
            }
        }
        k = k + 1;
    }
    proof {
        assert(has_compile == nsv.contains(compile_name()));
        assert(has_run == nsv.contains(run_name()));
    }
    has_compile && has_run
}

/// Why a harness archive was rejected.
#[derive(Clone, Copy, PartialEq, Eq, Structural, Debug)]
pub enum HarnessError {
    /// The archive is not a well-formed gzip stream.
    Corrupt,
    /// The archive inflates, but a stage script is missing from its entries.
    MissingScripts,
}

/// Validates a harness archive before an attempt is run on it: the archive
/// must inflate, and the inflated tar stream's entries must hold both stage
/// scripts.
pub fn check_harness(archive: &Vec<u8>) -> (r: Result<(), HarnessError>)
    ensures
        (r is Ok <==> (gunzip_of(archive@) matches Some(t) && harness_scripts_ok(t))),
        (r == Err::<(), HarnessError>(HarnessError::Corrupt) <==> gunzip_of(archive@) is None),
{
    match gunzip(archive) {
        None => Err(HarnessError::Corrupt),
        Some(t) => {
            if scripts_present(&t) {
                Ok(())
            } else {
                Err(HarnessError::MissingScripts)
            }
        },
    }
}

} // verus!
