use pumpfun::{ArithmeticError, DecodeError, GlobalAccount, ACCOUNT_LEN};
use solana_pubkey::Pubkey;

fn curve(virtual_tokens: u64, virtual_sol: u64, real_tokens: u64) -> GlobalAccount {
    GlobalAccount {
        discriminator: 0,
        initialized: true,
        authority_bytes: [0u8; 32],
        fee_recipient_bytes: [0u8; 32],
        initial_virtual_token_reserves: virtual_tokens,
        initial_virtual_sol_reserves: virtual_sol,
        initial_real_token_reserves: real_tokens,
        token_total_supply: 1_000_000_000,
        fee_basis_points: 100,
    }
}

fn sample() -> GlobalAccount {
    let mut authority = [0u8; 32];
    let mut fee_recipient = [0u8; 32];
    for i in 0..32 {
        authority[i] = i as u8 + 1;
        fee_recipient[i] = 200 - i as u8;
    }
    GlobalAccount {
        discriminator: 0xa7c4_2b3e_91d0_5f16,
        initialized: true,
        authority_bytes: authority,
        fee_recipient_bytes: fee_recipient,
        initial_virtual_token_reserves: 1_073_000_000_000_000,
        initial_virtual_sol_reserves: 30_000_000_000,
        initial_real_token_reserves: 793_100_000_000_000,
        token_total_supply: 1_000_000_000_000_000,
        fee_basis_points: 100,
    }
}

#[test]
fn quote_concrete_scenario() {
    let c = curve(1_000_000_000, 30_000_000_000, 800_000_000);
    assert_eq!(c.get_initial_buy_price(1_000_000_000), Ok(32_258_064));
}

#[test]
fn quote_zero_amount_is_zero() {
    assert_eq!(curve(1_000_000_000, 30_000_000_000, 800_000_000).get_initial_buy_price(0), Ok(0));
    assert_eq!(curve(0, 0, 0).get_initial_buy_price(0), Ok(0));
    assert_eq!(curve(u64::MAX, u64::MAX, u64::MAX).get_initial_buy_price(0), Ok(0));
}

#[test]
fn quote_capped_by_real_reserves() {
    let c = curve(1_000_000_000, 30_000_000_000, 10_000_000);
    assert_eq!(c.get_initial_buy_price(1_000_000_000), Ok(10_000_000));
    let big = curve(1_000_000_000, 30_000_000_000, 800_000_000);
    assert_eq!(big.get_initial_buy_price(u64::MAX), Ok(800_000_000));
}

#[test]
fn quote_is_monotone_in_amount() {
    let c = curve(1_000_000_000, 30_000_000_000, 800_000_000);
    let mut last = 0u64;
    for amount in [0u64, 1, 10, 1_000, 1_000_000, 1_000_000_000, 50_000_000_000, u64::MAX] {
        let q = c.get_initial_buy_price(amount).unwrap();
        assert!(q >= last);
        assert!(q <= c.initial_real_token_reserves);
        last = q;
    }
}

#[test]
fn quote_tiny_amount_rounds_to_zero() {
    // k / (sol + 1) + 1 == tokens here, so the buyer gets nothing.
    let c = curve(1_000_000_000, 30_000_000_000, 800_000_000);
    assert_eq!(c.get_initial_buy_price(1), Ok(0));
}

#[test]
fn quote_with_wide_intermediate_product() {
    // k = (2^64 - 1)^2 needs 128 bits.
    let c = curve(u64::MAX, u64::MAX, u64::MAX);
    assert_eq!(c.get_initial_buy_price(u64::MAX), Ok((u64::MAX - 1) / 2));
}

#[test]
fn quote_on_empty_token_pool_underflows() {
    let c = curve(0, 30_000_000_000, 800_000_000);
    assert_eq!(c.get_initial_buy_price(1_000_000_000), Err(ArithmeticError::Underflow));
    assert_eq!(curve(0, 0, 0).get_initial_buy_price(1), Err(ArithmeticError::Underflow));
}

#[test]
fn encode_has_fixed_layout() {
    let c = sample();
    let bytes = c.encode();
    assert_eq!(bytes.len(), ACCOUNT_LEN);
    assert_eq!(&bytes[0..8], &0xa7c4_2b3e_91d0_5f16u64.to_le_bytes());
    assert_eq!(bytes[8], 1);
    assert_eq!(&bytes[9..41], &c.authority_bytes);
    assert_eq!(&bytes[41..73], &c.fee_recipient_bytes);
    assert_eq!(&bytes[73..81], &1_073_000_000_000_000u64.to_le_bytes());
    assert_eq!(&bytes[81..89], &30_000_000_000u64.to_le_bytes());
    assert_eq!(&bytes[89..97], &793_100_000_000_000u64.to_le_bytes());
    assert_eq!(&bytes[97..105], &1_000_000_000_000_000u64.to_le_bytes());
    assert_eq!(&bytes[105..113], &100u64.to_le_bytes());
}

#[test]
fn decode_encode_round_trip() {
    let c = sample();
    assert_eq!(GlobalAccount::decode(&c.encode()), Ok(c.clone()));
    let mut off = sample();
    off.initialized = false;
    assert_eq!(off.encode()[8], 0);
    assert_eq!(GlobalAccount::decode(&off.encode()), Ok(off));
}

#[test]
fn decode_ignores_trailing_bytes() {
    let c = sample();
    let mut bytes = c.encode();
    bytes.extend_from_slice(&[9, 9, 9]);
    assert_eq!(GlobalAccount::decode(&bytes), Ok(c));
}

#[test]
fn decode_short_input_fails() {
    let bytes = sample().encode();
    assert_eq!(GlobalAccount::decode(&[]), Err(DecodeError::TooShort));
    assert_eq!(GlobalAccount::decode(&bytes[..112]), Err(DecodeError::TooShort));
    assert_eq!(GlobalAccount::decode(&bytes[..9]), Err(DecodeError::TooShort));
}

#[test]
fn decode_rejects_bad_flag_byte() {
    let mut bytes = sample().encode();
    bytes[8] = 2;
    assert_eq!(GlobalAccount::decode(&bytes), Err(DecodeError::InvalidBool));
    bytes[8] = 0xff;
    assert_eq!(GlobalAccount::decode(&bytes), Err(DecodeError::InvalidBool));
}

#[test]
fn new_stores_key_bytes() {
    let authority = Pubkey::new_from_array([7u8; 32]);
    let mut fee = [0u8; 32];
    fee[0] = 1;
    fee[31] = 2;
    let fee_recipient = Pubkey::new_from_array(fee);
    let c = GlobalAccount::new(5, true, authority, fee_recipient, 1, 2, 3, 4, 5);
    assert_eq!(c.authority_bytes, [7u8; 32]);
    assert_eq!(c.fee_recipient_bytes, fee);
    assert_eq!(c.discriminator, 5);
    assert!(c.initialized);
    assert_eq!(c.initial_virtual_token_reserves, 1);
    assert_eq!(c.initial_virtual_sol_reserves, 2);
    assert_eq!(c.initial_real_token_reserves, 3);
    assert_eq!(c.token_total_supply, 4);
    assert_eq!(c.fee_basis_points, 5);
}

#[test]
fn accessors_return_stored_keys() {
    let c = sample();
    assert_eq!(c.authority(), Pubkey::new_from_array(c.authority_bytes));
    assert_eq!(c.fee_recipient(), Pubkey::new_from_array(c.fee_recipient_bytes));
    assert_eq!(c.authority().to_bytes(), c.authority_bytes);
    assert_eq!(c.fee_recipient().to_bytes()[0], 200);
    assert_ne!(c.authority(), c.fee_recipient());
}

#[test]
fn keys_survive_new_and_codec() {
    let authority = Pubkey::new_from_array([3u8; 32]);
    let fee_recipient = Pubkey::new_from_array([4u8; 32]);
    let c = GlobalAccount::new(9, false, authority, fee_recipient, 10, 20, 5, 50, 25);
    assert_eq!(c.authority(), authority);
    assert_eq!(c.fee_recipient(), fee_recipient);
    let d = GlobalAccount::decode(&c.encode()).unwrap();
    assert_eq!(d.authority(), c.authority());
    assert_eq!(d.fee_recipient(), c.fee_recipient());
}
