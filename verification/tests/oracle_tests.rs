use perpetuals::errors::PerpetualsError;
use perpetuals::oracle::{
    parse_oracle_price_update, validate_ed25519_signature_instruction, InstructionInfo,
    SetCustomOraclePricePermissionlessParams, ED25519_MESSAGE_OFFSET, ED25519_PUBKEY_OFFSET,
    ED25519_SINGLE_VERIFY_LEN,
};

fn sample_params() -> SetCustomOraclePricePermissionlessParams {
    SetCustomOraclePricePermissionlessParams {
        custody_account: (0u8..32).collect(),
        price: 123_456_789,
        expo: -8,
        conf: 42,
        ema: 987_654_321,
        publish_time: 1_700_000_000,
    }
}

fn serialize_params(p: &SetCustomOraclePricePermissionlessParams) -> Vec<u8> {
    let mut out = Vec::new();
    out.extend_from_slice(&p.custody_account);
    out.extend_from_slice(&p.price.to_le_bytes());
    out.extend_from_slice(&p.expo.to_le_bytes());
    out.extend_from_slice(&p.conf.to_le_bytes());
    out.extend_from_slice(&p.ema.to_le_bytes());
    out.extend_from_slice(&p.publish_time.to_le_bytes());
    out
}

/// A single-signature ed25519 verification instruction over `message`,
/// addressed to the real ed25519 program and signed by `signer`.
fn verification_instruction(signer: &[u8; 32], message: &[u8]) -> InstructionInfo {
    let mut data = vec![0u8; ED25519_MESSAGE_OFFSET];
    data[0] = 0x01;
    data[ED25519_PUBKEY_OFFSET..ED25519_PUBKEY_OFFSET + 32].copy_from_slice(signer);
    data.extend_from_slice(message);
    InstructionInfo {
        program_id: solana_program::ed25519_program::id().to_bytes().to_vec(),
        account_count: 0,
        data,
    }
}

#[test]
fn test_ed25519_program_id_bytes() {
    // The validation layer states the ed25519 program's address byte for
    // byte; hold that statement against the address the host crate exports.
    let stated: Vec<u8> = vec![
        3, 125, 70, 214, 124, 147, 251, 190, 18, 249, 66, 143, 131, 141, 64, 255, 5, 112, 116, 73,
        39, 244, 138, 100, 252, 202, 112, 68, 128, 0, 0, 0,
    ];
    assert_eq!(
        solana_program::ed25519_program::id().to_bytes().to_vec(),
        stated
    );
}

#[test]
fn test_parse_oracle_price_update_round_trip() {
    let params = sample_params();
    let bytes = serialize_params(&params);
    assert_eq!(bytes.len(), 68);
    let parsed = parse_oracle_price_update(&bytes, 0);
    assert_eq!(parsed, params);

    // Negative fields survive the two's-complement reading.
    let extreme = SetCustomOraclePricePermissionlessParams {
        custody_account: vec![0xabu8; 32],
        price: u64::MAX,
        expo: i32::MIN,
        conf: 0,
        ema: 1,
        publish_time: i64::MIN,
    };
    let parsed = parse_oracle_price_update(&serialize_params(&extreme), 0);
    assert_eq!(parsed, extreme);
}

#[test]
fn test_validate_accepts_matching_instruction() {
    let params = sample_params();
    let signer = [7u8; 32];
    let ix = verification_instruction(&signer, &serialize_params(&params));
    assert_eq!(ix.data.len(), ED25519_SINGLE_VERIFY_LEN);
    let r = validate_ed25519_signature_instruction(&ix, &signer.to_vec(), &params);
    assert_eq!(r, Ok(()));
}

#[test]
fn test_validate_rejects_wrong_program() {
    let params = sample_params();
    let signer = [7u8; 32];
    let mut ix = verification_instruction(&signer, &serialize_params(&params));
    ix.program_id = vec![0u8; 32];
    assert_eq!(
        validate_ed25519_signature_instruction(&ix, &signer.to_vec(), &params),
        Err(PerpetualsError::PermissionlessOracleMissingSignature)
    );
}

#[test]
fn test_validate_rejects_malformed_data() {
    let params = sample_params();
    let signer = [7u8; 32];

    // An instruction that touches accounts.
    let mut ix = verification_instruction(&signer, &serialize_params(&params));
    ix.account_count = 1;
    assert_eq!(
        validate_ed25519_signature_instruction(&ix, &signer.to_vec(), &params),
        Err(PerpetualsError::PermissionlessOracleMalformedEd25519Data)
    );

    // More than one signature entry.
    let mut ix = verification_instruction(&signer, &serialize_params(&params));
    ix.data[0] = 0x02;
    assert_eq!(
        validate_ed25519_signature_instruction(&ix, &signer.to_vec(), &params),
        Err(PerpetualsError::PermissionlessOracleMalformedEd25519Data)
    );

    // Data of the wrong length.
    let mut ix = verification_instruction(&signer, &serialize_params(&params));
    ix.data.push(0);
    assert_eq!(
        validate_ed25519_signature_instruction(&ix, &signer.to_vec(), &params),
        Err(PerpetualsError::PermissionlessOracleMalformedEd25519Data)
    );
}

#[test]
fn test_validate_rejects_wrong_signer() {
    let params = sample_params();
    let signer = [7u8; 32];
    let ix = verification_instruction(&signer, &serialize_params(&params));
    let other = vec![8u8; 32];
    assert_eq!(
        validate_ed25519_signature_instruction(&ix, &other, &params),
        Err(PerpetualsError::PermissionlessOracleSignerMismatch)
    );
}

#[test]
fn test_validate_rejects_wrong_message() {
    let params = sample_params();
    let signer = [7u8; 32];
    let ix = verification_instruction(&signer, &serialize_params(&params));
    let mut other_params = sample_params();
    other_params.price += 1;
    assert_eq!(
        validate_ed25519_signature_instruction(&ix, &signer.to_vec(), &other_params),
        Err(PerpetualsError::PermissionlessOracleMessageMismatch)
    );
}
