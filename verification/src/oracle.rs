use vstd::prelude::*;

use crate::errors::PerpetualsError;

verus! {

// Permissionless oracle price updates: a price update may be applied by
// anyone, provided the same transaction carries an ed25519 signature
// verification of the serialized update parameters by the oracle authority.
// The host ledger's ed25519 program has already checked the signature when
// this code runs; what remains is to check that the verification instruction
// is really addressed to that program, carries exactly one signature entry
// over an embedded message, and that the signer and the message are the
// expected ones. The byte layout checked here is the ed25519 program's
// single-signature instruction: one entry header, the signer's public key at
// offset 16, and the signed message at offset 112.

/// Length of a single-signature ed25519 verification instruction whose
/// message is one serialized price update.
pub const ED25519_SINGLE_VERIFY_LEN: usize = 180;

/// Offset of the signer's public key inside the instruction data.
pub const ED25519_PUBKEY_OFFSET: usize = 16;

/// Offset of the signed message inside the instruction data.
pub const ED25519_MESSAGE_OFFSET: usize = 112;

/// A permissionless oracle price update: the custody it prices, the price
/// with its decimal exponent, the confidence interval, the exponential moving
/// average, and the time the price was published.
#[derive(Clone, Debug, PartialEq, Eq)]
pub struct SetCustomOraclePricePermissionlessParams {
    /// The custody account the update is for, as its 32-byte address.
    pub custody_account: Vec<u8>,
    pub price: u64,
    pub expo: i32,
    pub conf: u64,
    pub ema: u64,
    pub publish_time: i64,
}

/// Field-wise equality of two price updates.
pub open spec fn params_match(
    a: SetCustomOraclePricePermissionlessParams,
    b: SetCustomOraclePricePermissionlessParams,
) -> bool {
    &&& a.custody_account@ == b.custody_account@
    &&& a.price == b.price
    &&& a.expo == b.expo
    &&& a.conf == b.conf
    &&& a.ema == b.ema
    &&& a.publish_time == b.publish_time
}

// Little-endian readers for the serialized update: the wire format writes
// each integer least-significant byte first.

/// The unsigned 64-bit value whose little-endian bytes sit at `i`.
pub open spec fn le_u64_at(s: Seq<u8>, i: int) -> int {
    s[i] + s[i + 1] * 0x100 + s[i + 2] * 0x1_0000 + s[i + 3] * 0x100_0000 + s[i + 4]
        * 0x1_0000_0000 + s[i + 5] * 0x100_0000_0000 + s[i + 6] * 0x1_0000_0000_0000 + s[i + 7]
        * 0x100_0000_0000_0000
}

/// The signed 64-bit value whose little-endian bytes sit at `i`, in two's
/// complement.
pub open spec fn le_i64_at(s: Seq<u8>, i: int) -> int {
    let unsigned = le_u64_at(s, i);
    if unsigned < 0x8000_0000_0000_0000 {
        unsigned
    } else {
        unsigned - 0x1_0000_0000_0000_0000
    }
}

/// The unsigned 32-bit value whose little-endian bytes sit at `i`.
pub open spec fn le_u32_at(s: Seq<u8>, i: int) -> int {
    s[i] + s[i + 1] * 0x100 + s[i + 2] * 0x1_0000 + s[i + 3] * 0x100_0000
}

/// The signed 32-bit value whose little-endian bytes sit at `i`, in two's
/// complement.
pub open spec fn le_i32_at(s: Seq<u8>, i: int) -> int {
    let unsigned = le_u32_at(s, i);
    if unsigned < 0x8000_0000 {
        unsigned
    } else {
        unsigned - 0x1_0000_0000
    }
}

fn read_le_u64(data: &Vec<u8>, offset: usize) -> (r: u64)
    requires
        offset + 8 <= data@.len(),
        data@.len() <= usize::MAX,
    ensures
        r == le_u64_at(data@, offset as int),
{
    (data[offset] as u64) + (data[offset + 1] as u64) * 0x100 + (data[offset + 2] as u64)
        * 0x1_0000 + (data[offset + 3] as u64) * 0x100_0000 + (data[offset + 4] as u64)
        * 0x1_0000_0000 + (data[offset + 5] as u64) * 0x100_0000_0000 + (data[offset + 6] as u64)
        * 0x1_0000_0000_0000 + (data[offset + 7] as u64) * 0x100_0000_0000_0000
}

fn read_le_i64(data: &Vec<u8>, offset: usize) -> (r: i64)
    requires
        offset + 8 <= data@.len(),
        data@.len() <= usize::MAX,
    ensures
        r == le_i64_at(data@, offset as int),
{
    let unsigned = read_le_u64(data, offset);
    if unsigned < 0x8000_0000_0000_0000 {
        unsigned as i64
    } else {
        ((unsigned - 0x8000_0000_0000_0000) as i64) + i64::MIN
    }
}

fn read_le_u32(data: &Vec<u8>, offset: usize) -> (r: u32)
    requires
        offset + 4 <= data@.len(),
        data@.len() <= usize::MAX,
    ensures
        r == le_u32_at(data@, offset as int),
{
    (data[offset] as u32) + (data[offset + 1] as u32) * 0x100 + (data[offset + 2] as u32)
        * 0x1_0000 + (data[offset + 3] as u32) * 0x100_0000
}

fn read_le_i32(data: &Vec<u8>, offset: usize) -> (r: i32)
    requires
        offset + 4 <= data@.len(),
        data@.len() <= usize::MAX,
    ensures
        r == le_i32_at(data@, offset as int),
{
    let unsigned = read_le_u32(data, offset);
    if unsigned < 0x8000_0000 {
        unsigned as i32
    } else {
        ((unsigned - 0x8000_0000) as i32) + i32::MIN
    }
}

/// Reads the serialized price update that starts at `offset`: the custody
/// address followed by the five little-endian integer fields, 68 bytes in
/// all.
pub fn parse_oracle_price_update(data: &Vec<u8>, offset: usize) -> (r:
    SetCustomOraclePricePermissionlessParams)
    requires
        offset + 68 <= data@.len(),
        data@.len() <= usize::MAX,
    ensures
        r.custody_account@ == data@.subrange(offset as int, offset + 32),
        r.price == le_u64_at(data@, offset + 32),
        r.expo == le_i32_at(data@, offset + 40),
        r.conf == le_u64_at(data@, offset + 44),
        r.ema == le_u64_at(data@, offset + 52),
        r.publish_time == le_i64_at(data@, offset + 60),
{
    let mut custody_account: Vec<u8> = Vec::new();
    let mut k: usize = 0;
    while k < 32
        invariant
            0 <= k <= 32,
            offset + 68 <= data@.len(),
            data@.len() <= usize::MAX,
            custody_account@ =~= data@.subrange(offset as int, offset + k),
        decreases 32 - k,
    {
        custody_account.push(data[offset + k]);
        proof {
            assert(custody_account@ =~= data@.subrange(offset as int, offset + k + 1));
        }
        k = k + 1;
    }
    SetCustomOraclePricePermissionlessParams {
        custody_account,
        price: read_le_u64(data, offset + 32),
        expo: read_le_i32(data, offset + 40),
        conf: read_le_u64(data, offset + 44),
        ema: read_le_u64(data, offset + 52),
        publish_time: read_le_i64(data, offset + 60),
    }
}

/// Byte-for-byte equality of two byte strings.
fn bytes_equal(a: &Vec<u8>, b: &Vec<u8>) -> (r: bool)
    ensures
        r <==> a@ == b@,
{
    if a.len() != b.len() {
        return false;
    }
    let n = a.len();
    let mut k: usize = 0;
    while k < n
        invariant
            0 <= k <= n,
            n == a@.len() == b@.len(),
            forall|j: int| 0 <= j < k ==> a@[j] == b@[j],
        decreases n - k,
    {
        if a[k] != b[k] {
            return false;
        }
        k = k + 1;
    }
    proof {
        assert(a@ =~= b@);
    }
    true
}

/// Whether `a` equals the `len` bytes of `data` starting at `offset`.
fn bytes_equal_at(a: &Vec<u8>, data: &Vec<u8>, offset: usize, len: usize) -> (r: bool)
    requires
        offset + len <= data@.len(),
        data@.len() <= usize::MAX,
    ensures
        r <==> a@ == data@.subrange(offset as int, offset + len),
{
    if a.len() != len {
        return false;
    }
    let mut k: usize = 0;
    while k < len
        invariant
            0 <= k <= len,
            len == a@.len(),
            offset + len <= data@.len(),
            data@.len() <= usize::MAX,
            forall|j: int| 0 <= j < k ==> a@[j] == data@[offset + j],
        decreases len - k,
    {
        if a[k] != data[offset + k] {
            return false;
        }
        k = k + 1;
    }
    proof {
        assert(a@ =~= data@.subrange(offset as int, offset + len));
    }
    true
}

/// Compares two price updates field by field.
pub fn oracle_params_equal(
    a: &SetCustomOraclePricePermissionlessParams,
    b: &SetCustomOraclePricePermissionlessParams,
) -> (r: bool)
    ensures
        r == params_match(*a, *b),
{
    bytes_equal(&a.custody_account, &b.custody_account) && a.price == b.price && a.expo == b.expo
        && a.conf == b.conf && a.ema == b.ema && a.publish_time == b.publish_time
}

/// The address of the host ledger's ed25519 signature-verification program.
pub open spec fn ed25519_program_id_seq() -> Seq<u8> {
    seq![
        3u8,
        125u8,
        70u8,
        214u8,
        124u8,
        147u8,
        251u8,
        190u8,
        18u8,
        249u8,
        66u8,
        143u8,
        131u8,
        141u8,
        64u8,
        255u8,
        5u8,
        112u8,
        116u8,
        73u8,
        39u8,
        244u8,
        138u8,
        100u8,
        252u8,
        202u8,
        112u8,
        68u8,
        128u8,
        0u8,
        0u8,
        0u8,
    ]
}

/// Relies on `solana_program::ed25519_program::id`: the address of the
/// ed25519 signature-verification native program, stated here byte for byte.
#[verifier::external_body]
fn ed25519_program_id_bytes() -> (r: Vec<u8>)
    ensures
        r@ == ed25519_program_id_seq(),
{
    solana_program::ed25519_program::id().to_bytes().to_vec()
}

/// The parts of a transaction instruction that the validation reads: the
/// program it is addressed to (as its 32-byte address), how many accounts it
/// touches, and its data bytes.
#[derive(Clone, Debug)]
pub struct InstructionInfo {
    pub program_id: Vec<u8>,
    pub account_count: usize,
    pub data: Vec<u8>,
}

/// The instruction is addressed to the ed25519 program.
pub open spec fn ed25519_program_ok(ix: InstructionInfo) -> bool {
    ix.program_id@ == ed25519_program_id_seq()
}

/// The instruction touches no account and its data is exactly one ed25519
/// signature entry of the expected length.
pub open spec fn ed25519_shape_ok(ix: InstructionInfo) -> bool {
    &&& ix.account_count == 0
    &&& ix.data@.len() == ED25519_SINGLE_VERIFY_LEN as int
    &&& ix.data@[0] == 1u8
}

/// The signer recorded in the instruction is the expected authority.
pub open spec fn ed25519_signer_ok(ix: InstructionInfo, expected_pubkey: Seq<u8>) -> bool {
    ix.data@.subrange(
        ED25519_PUBKEY_OFFSET as int,
        ED25519_PUBKEY_OFFSET as int + 32,
    ) == expected_pubkey
}

/// The signed message is exactly the serialized expected price update.
pub open spec fn ed25519_message_ok(
    ix: InstructionInfo,
    expected: SetCustomOraclePricePermissionlessParams,
) -> bool {
    let data = ix.data@;
    let o = ED25519_MESSAGE_OFFSET as int;
    &&& data.subrange(o, o + 32) == expected.custody_account@
    &&& le_u64_at(data, o + 32) == expected.price
    &&& le_i32_at(data, o + 40) == expected.expo
    &&& le_u64_at(data, o + 44) == expected.conf
    &&& le_u64_at(data, o + 52) == expected.ema
    &&& le_i64_at(data, o + 60) == expected.publish_time
}

/// Validates that `signature_ix` is an ed25519 verification, by the expected
/// authority, of exactly the price update being applied. Each check reports
/// its own failure; nothing is mutated.
pub fn validate_ed25519_signature_instruction(
    signature_ix: &InstructionInfo,
    expected_pubkey: &Vec<u8>,
    expected_params: &SetCustomOraclePricePermissionlessParams,
) -> (r: Result<(), PerpetualsError>)
    ensures
        r is Ok <==> {
            &&& ed25519_program_ok(*signature_ix)
            &&& ed25519_shape_ok(*signature_ix)
            &&& ed25519_signer_ok(*signature_ix, expected_pubkey@)
            &&& ed25519_message_ok(*signature_ix, *expected_params)
        },
        (r matches Err(e) && e == PerpetualsError::PermissionlessOracleMissingSignature)
            <==> !ed25519_program_ok(*signature_ix),
        (r matches Err(e) && e == PerpetualsError::PermissionlessOracleMalformedEd25519Data) <==> (
        ed25519_program_ok(*signature_ix) && !ed25519_shape_ok(*signature_ix)),
        (r matches Err(e) && e == PerpetualsError::PermissionlessOracleSignerMismatch) <==> (
        ed25519_program_ok(*signature_ix) && ed25519_shape_ok(*signature_ix)
            && !ed25519_signer_ok(*signature_ix, expected_pubkey@)),
        (r matches Err(e) && e == PerpetualsError::PermissionlessOracleMessageMismatch) <==> (
        ed25519_program_ok(*signature_ix) && ed25519_shape_ok(*signature_ix) && ed25519_signer_ok(
            *signature_ix,
            expected_pubkey@,
        ) && !ed25519_message_ok(*signature_ix, *expected_params)),
{
    let expected_program = ed25519_program_id_bytes();
    if !bytes_equal(&signature_ix.program_id, &expected_program) {
        return Err(PerpetualsError::PermissionlessOracleMissingSignature);
    }
    if !(signature_ix.account_count == 0 && signature_ix.data.len() == ED25519_SINGLE_VERIFY_LEN) {
        return Err(PerpetualsError::PermissionlessOracleMalformedEd25519Data);
    }
    if signature_ix.data[0] != 1 {
        return Err(PerpetualsError::PermissionlessOracleMalformedEd25519Data);
    }
    let parsed = parse_oracle_price_update(&signature_ix.data, ED25519_MESSAGE_OFFSET);
    if !bytes_equal_at(expected_pubkey, &signature_ix.data, ED25519_PUBKEY_OFFSET, 32) {
        return Err(PerpetualsError::PermissionlessOracleSignerMismatch);
    }
    if !oracle_params_equal(&parsed, expected_params) {
        return Err(PerpetualsError::PermissionlessOracleMessageMismatch);
    }
    Ok(())
}

} // verus!
