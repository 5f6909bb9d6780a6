use solana_pubkey::Pubkey;
use vstd::arithmetic::div_mod::{lemma_div_is_ordered_by_denominator, lemma_multiply_divide_lt};
use vstd::prelude::*;

verus! {

/// Account keys come from `solana_pubkey::Pubkey`, used here as an opaque value.
#[verifier::external_type_specification]
#[verifier::external_body]
pub struct ExPubkey(Pubkey);

/// The 32 bytes that a key holds.
pub uninterp spec fn key_bytes(k: Pubkey) -> Seq<u8>;

/// Relies on `Pubkey::new_from_array`: the key holds exactly the given bytes,
/// and a key is nothing but its bytes, so it is the one key that holds them.
#[verifier::external_body]
fn key_from_bytes(bytes: [u8; 32]) -> (r: Pubkey)
    ensures
        key_bytes(r) == bytes@,
        forall|k: Pubkey| #[trigger] key_bytes(k) == bytes@ ==> k == r,
{
    Pubkey::new_from_array(bytes)
}

/// Relies on `Pubkey::to_bytes`: it hands back the bytes the key holds.
#[verifier::external_body]
fn bytes_of_key(k: Pubkey) -> (r: [u8; 32])
    ensures
        r@ == key_bytes(k),
{
    k.to_bytes()
}

/// The protocol-wide configuration record, held as it lies on the wire: the two
/// key fields are kept as raw bytes, and `authority()` / `fee_recipient()` turn
/// them into key values on demand.
#[derive(Debug, Clone, PartialEq, Eq)]
pub struct GlobalAccount {
    /// Tag that identifies the account's type and layout version.
    pub discriminator: u64,
    /// Whether the record has been set up; pricing on a placeholder is meaningless.
    pub initialized: bool,
    /// Key of the party allowed to change protocol-wide settings.
    pub authority_bytes: [u8; 32],
    /// Key of the account that collects fees.
    pub fee_recipient_bytes: [u8; 32],
    /// Token-side liquidity used by the price curve only.
    pub initial_virtual_token_reserves: u64,
    /// SOL-side liquidity used by the price curve only.
    pub initial_virtual_sol_reserves: u64,
    /// Tokens actually available for sale: the ceiling of any one quote.
    pub initial_real_token_reserves: u64,
    /// Total issuance of the token.
    pub token_total_supply: u64,
    /// Fee rate in hundredths of a percent (stored, not applied by the quote).
    pub fee_basis_points: u64,
}

/// Length of the encoded account record in bytes.
pub const ACCOUNT_LEN: usize = 113;

/// Why a byte sequence is not an account record.
#[derive(Debug, Clone, Copy, PartialEq, Eq)]
pub enum DecodeError {
    /// Fewer bytes than one record takes.
    TooShort,
    /// The `initialized` byte is neither 0 nor 1.
    InvalidBool,
}

/// The eight little-endian bytes of `x`.
pub open spec fn le_u64_bytes(x: u64) -> Seq<u8> {
    seq![
        (x & 0xff) as u8,
        ((x >> 8) & 0xff) as u8,
        ((x >> 16) & 0xff) as u8,
        ((x >> 24) & 0xff) as u8,
        ((x >> 32) & 0xff) as u8,
        ((x >> 40) & 0xff) as u8,
        ((x >> 48) & 0xff) as u8,
        ((x >> 56) & 0xff) as u8,
    ]
}

/// The integer that the first eight bytes of `b` encode, little-endian.
pub open spec fn le_u64_value(b: Seq<u8>) -> u64 {
    (b[0] as u64) | ((b[1] as u64) << 8) | ((b[2] as u64) << 16) | ((b[3] as u64) << 24) | ((
    b[4] as u64) << 32) | ((b[5] as u64) << 40) | ((b[6] as u64) << 48) | ((b[7] as u64) << 56)
}

/// The wire form of a record: its fields in declaration order, integers
/// little-endian, the flag as one byte 0 or 1, each key as its 32 bytes.
pub open spec fn account_bytes(c: GlobalAccount) -> Seq<u8> {
    le_u64_bytes(c.discriminator) + seq![if c.initialized { 1u8 } else { 0u8 }]
        + c.authority_bytes@ + c.fee_recipient_bytes@ + le_u64_bytes(
        c.initial_virtual_token_reserves,
    ) + le_u64_bytes(c.initial_virtual_sol_reserves) + le_u64_bytes(
        c.initial_real_token_reserves,
    ) + le_u64_bytes(c.token_total_supply) + le_u64_bytes(c.fee_basis_points)
}

/// Whether `b` starts with a well-formed record: long enough, with a flag byte
/// of 0 or 1. Bytes after the record are ignored.
pub open spec fn decodable(b: Seq<u8>) -> bool {
    b.len() >= ACCOUNT_LEN && b[8] <= 1
}

/// Whether `c` is the record that the first `ACCOUNT_LEN` bytes of `b` hold.
pub open spec fn decodes_to(b: Seq<u8>, c: GlobalAccount) -> bool {
    &&& c.discriminator == le_u64_value(b.subrange(0, 8))
    &&& c.initialized == (b[8] == 1)
    &&& c.authority_bytes@ == b.subrange(9, 41)
    &&& c.fee_recipient_bytes@ == b.subrange(41, 73)
    &&& c.initial_virtual_token_reserves == le_u64_value(b.subrange(73, 81))
    &&& c.initial_virtual_sol_reserves == le_u64_value(b.subrange(81, 89))
    &&& c.initial_real_token_reserves == le_u64_value(b.subrange(89, 97))
    &&& c.token_total_supply == le_u64_value(b.subrange(97, 105))
    &&& c.fee_basis_points == le_u64_value(b.subrange(105, 113))
}

proof fn lemma_le_u64_round_trip(x: u64)
    ensures
        le_u64_value(le_u64_bytes(x)) == x,
{
    assert(((x & 0xff) as u8 as u64) | ((((x >> 8) & 0xff) as u8 as u64) << 8) | ((((x >> 16)
        & 0xff) as u8 as u64) << 16) | ((((x >> 24) & 0xff) as u8 as u64) << 24) | ((((x >> 32)
        & 0xff) as u8 as u64) << 32) | ((((x >> 40) & 0xff) as u8 as u64) << 40) | ((((x >> 48)
        & 0xff) as u8 as u64) << 48) | ((((x >> 56) & 0xff) as u8 as u64) << 56) == x)
        by (bit_vector);
}

/// No byte sequence shorter than one record decodes.
pub proof fn lemma_short_input_not_decodable(b: Seq<u8>)
    requires
        b.len() < ACCOUNT_LEN,
    ensures
        !decodable(b),
{
}

/// Decoding the encoding of any record gives that record back, field for field.
pub proof fn lemma_decode_encode(c: GlobalAccount)
    ensures
        account_bytes(c).len() == ACCOUNT_LEN,
        decodable(account_bytes(c)),
        decodes_to(account_bytes(c), c),
{
    let b = account_bytes(c);
    assert(b.subrange(0, 8) =~= le_u64_bytes(c.discriminator));
    assert(b.subrange(9, 41) =~= c.authority_bytes@);
    assert(b.subrange(41, 73) =~= c.fee_recipient_bytes@);
    assert(b.subrange(73, 81) =~= le_u64_bytes(c.initial_virtual_token_reserves));
    assert(b.subrange(81, 89) =~= le_u64_bytes(c.initial_virtual_sol_reserves));
    assert(b.subrange(89, 97) =~= le_u64_bytes(c.initial_real_token_reserves));
    assert(b.subrange(97, 105) =~= le_u64_bytes(c.token_total_supply));
    assert(b.subrange(105, 113) =~= le_u64_bytes(c.fee_basis_points));
    lemma_le_u64_round_trip(c.discriminator);
    lemma_le_u64_round_trip(c.initial_virtual_token_reserves);
    lemma_le_u64_round_trip(c.initial_virtual_sol_reserves);
    lemma_le_u64_round_trip(c.initial_real_token_reserves);
    lemma_le_u64_round_trip(c.token_total_supply);
    lemma_le_u64_round_trip(c.fee_basis_points);
}

fn read_u64_le(data: &[u8], at: usize) -> (r: u64)
    requires
        at + 8 <= data@.len(),
    ensures
        r == le_u64_value(data@.subrange(at as int, at + 8)),
{
    (data[at] as u64) | ((data[at + 1] as u64) << 8) | ((data[at + 2] as u64) << 16) | ((data[at
        + 3] as u64) << 24) | ((data[at + 4] as u64) << 32) | ((data[at + 5] as u64) << 40) | ((
    data[at + 6] as u64) << 48) | ((data[at + 7] as u64) << 56)
}

fn read_key(data: &[u8], at: usize) -> (r: [u8; 32])
    requires
        at + 32 <= data@.len(),
    ensures
        r@ == data@.subrange(at as int, at + 32),
{
    let len = data.len();
    let mut key = [0u8; 32];
    let mut i: usize = 0;
    while i < 32
        invariant
            i <= 32,
            len == data@.len(),
            at + 32 <= len,
            key@.len() == 32,
            forall|j: int| 0 <= j < i ==> key@[j] == data@[at + j],
        decreases 32 - i,
    {
        key[i] = data[at + i];
        i = i + 1;
    }
    assert(key@ =~= data@.subrange(at as int, at + 32));
    key
}

fn push_u64_le(out: &mut Vec<u8>, x: u64)
    ensures
        final(out)@ == old(out)@ + le_u64_bytes(x),
{
    out.push((x & 0xff) as u8);
    out.push(((x >> 8) & 0xff) as u8);
    out.push(((x >> 16) & 0xff) as u8);
    out.push(((x >> 24) & 0xff) as u8);
    out.push(((x >> 32) & 0xff) as u8);
    out.push(((x >> 40) & 0xff) as u8);
    out.push(((x >> 48) & 0xff) as u8);
    out.push(((x >> 56) & 0xff) as u8);
    assert(final(out)@ =~= old(out)@ + le_u64_bytes(x));
}

fn push_key(out: &mut Vec<u8>, key: &[u8; 32])
    ensures
        final(out)@ == old(out)@ + key@,
{
    let mut i: usize = 0;
    while i < 32
        invariant
            i <= 32,
            key@.len() == 32,
            out@ == old(out)@ + key@.subrange(0, i as int),
        decreases 32 - i,
    {
        out.push(key[i]);
        i = i + 1;
        assert(out@ =~= old(out)@ + key@.subrange(0, i as int));
    }
    assert(key@.subrange(0, 32) =~= key@);
}

/// A quote whose curve step would take more tokens than the virtual pool holds.
#[derive(Debug, Clone, Copy, PartialEq, Eq)]
pub enum ArithmeticError {
    /// `k / (sol + amount) + 1` exceeds the virtual token reserves.
    Underflow,
}

/// The constant-product invariant `k` of the initial curve.
pub open spec fn curve_product(c: GlobalAccount) -> int {
    c.initial_virtual_sol_reserves * c.initial_virtual_token_reserves
}

/// Token reserve left in the pool after `amount` SOL comes in, rounded up by one
/// in the protocol's favour.
pub open spec fn reserve_after_buy(c: GlobalAccount, amount: u64) -> int {
    curve_product(c) / (c.initial_virtual_sol_reserves + amount) + 1
}

/// Whether a buy of `amount` SOL can be quoted at all.
pub open spec fn buy_quotable(c: GlobalAccount, amount: u64) -> bool {
    amount == 0 || reserve_after_buy(c, amount) <= c.initial_virtual_token_reserves
}

/// Tokens that a buy of `amount` SOL yields, capped by the real reserves
/// (meaningful where `buy_quotable(c, amount)`).
pub open spec fn buy_quote(c: GlobalAccount, amount: u64) -> int {
    if amount == 0 {
        0
    } else {
        let out = c.initial_virtual_token_reserves - reserve_after_buy(c, amount);
        if out < c.initial_real_token_reserves {
            out
        } else {
            c.initial_real_token_reserves as int
        }
    }
}

proof fn lemma_product_fits(x: u64, y: u64)
    ensures
        x * y <= u64::MAX * u64::MAX,
        u64::MAX * u64::MAX + 1 <= u128::MAX,
{
    assert(x * y <= u64::MAX * u64::MAX) by (nonlinear_arith)
        requires
            x <= u64::MAX,
            y <= u64::MAX,
    ;
}

proof fn lemma_reserve_within_pool(c: GlobalAccount, amount: u64)
    requires
        amount >= 1,
        c.initial_virtual_token_reserves >= 1,
    ensures
        reserve_after_buy(c, amount) <= c.initial_virtual_token_reserves,
{
    let sol = c.initial_virtual_sol_reserves as int;
    let tokens = c.initial_virtual_token_reserves as int;
    let new_sol = sol + amount;
    assert(sol * tokens < new_sol * tokens) by (nonlinear_arith)
        requires
            new_sol == sol + amount,
            amount >= 1,
            tokens >= 1,
    ;
    lemma_multiply_divide_lt(sol * tokens, new_sol, tokens);
}

/// A buy of a positive amount can be quoted exactly when the virtual token
/// reserves are not empty.
pub proof fn lemma_buy_quotable_iff_pool_nonempty(c: GlobalAccount, amount: u64)
    requires
        amount >= 1,
    ensures
        buy_quotable(c, amount) <==> c.initial_virtual_token_reserves >= 1,
{
    if c.initial_virtual_token_reserves >= 1 {
        lemma_reserve_within_pool(c, amount);
    }
}

/// Spending more SOL never yields fewer tokens: wherever the larger buy can be
/// quoted, so can the smaller one, and its quote is no larger.
pub proof fn lemma_buy_quote_monotone(c: GlobalAccount, a1: u64, a2: u64)
    requires
        a1 <= a2,
        buy_quotable(c, a2),
    ensures
        buy_quotable(c, a1),
        buy_quote(c, a1) <= buy_quote(c, a2),
{
    if a1 > 0 {
        lemma_reserve_within_pool(c, a1);
        lemma_div_is_ordered_by_denominator(
            curve_product(c),
            c.initial_virtual_sol_reserves + a1,
            c.initial_virtual_sol_reserves + a2,
        );
    }
}

/// No quote exceeds the real token reserves.
pub proof fn lemma_buy_quote_capped(c: GlobalAccount, amount: u64)
    requires
        buy_quotable(c, amount),
    ensures
        0 <= buy_quote(c, amount) <= c.initial_real_token_reserves,
{
}

impl GlobalAccount {

    /// Builds a record from its field values, storing each key as its bytes.
    #[allow(clippy::too_many_arguments)]
    pub fn new(
        discriminator: u64,
        initialized: bool,
        authority: Pubkey,
        fee_recipient: Pubkey,
        initial_virtual_token_reserves: u64,
        initial_virtual_sol_reserves: u64,
        initial_real_token_reserves: u64,
        token_total_supply: u64,
        fee_basis_points: u64,
    ) -> (r: Self)
        ensures
            r.discriminator == discriminator,
            r.initialized == initialized,
            r.authority_bytes@ == key_bytes(authority),
            r.fee_recipient_bytes@ == key_bytes(fee_recipient),
            r.initial_virtual_token_reserves == initial_virtual_token_reserves,
            r.initial_virtual_sol_reserves == initial_virtual_sol_reserves,
            r.initial_real_token_reserves == initial_real_token_reserves,
            r.token_total_supply == token_total_supply,
            r.fee_basis_points == fee_basis_points,
    {
        GlobalAccount {
            discriminator,
            initialized,
            authority_bytes: bytes_of_key(authority),
            fee_recipient_bytes: bytes_of_key(fee_recipient),
            initial_virtual_token_reserves,
            initial_virtual_sol_reserves,
            initial_real_token_reserves,
            token_total_supply,
            fee_basis_points,
        }
    }

    /// The key of the party allowed to change protocol-wide settings.
    pub fn authority(&self) -> (r: Pubkey)
        ensures
            key_bytes(r) == self.authority_bytes@,
            forall|k: Pubkey| #[trigger] key_bytes(k) == self.authority_bytes@ ==> k == r,
    {
        key_from_bytes(self.authority_bytes)
    }

    /// The key of the account that collects fees.
    pub fn fee_recipient(&self) -> (r: Pubkey)
        ensures
            key_bytes(r) == self.fee_recipient_bytes@,
            forall|k: Pubkey| #[trigger] key_bytes(k) == self.fee_recipient_bytes@ ==> k == r,
    {
        key_from_bytes(self.fee_recipient_bytes)
    }


    /// Reads a record from the start of `data`. Fails with `TooShort` when
    /// `data` holds fewer than `ACCOUNT_LEN` bytes and with `InvalidBool` when
    /// the flag byte is neither 0 nor 1; bytes after the record are ignored.
    pub fn decode(data: &[u8]) -> (r: Result<GlobalAccount, DecodeError>)
        ensures
            r is Ok <==> decodable(data@),
            r is Ok ==> decodes_to(data@, r->Ok_0),
            data@.len() < ACCOUNT_LEN ==> r == Err::<GlobalAccount, DecodeError>(
                DecodeError::TooShort,
            ),
            data@.len() >= ACCOUNT_LEN && data@[8] > 1 ==> r == Err::<GlobalAccount, DecodeError>(
                DecodeError::InvalidBool,
            ),
    {
        if data.len() < ACCOUNT_LEN {
            return Err(DecodeError::TooShort);
        }
        let flag = data[8];
        if flag > 1 {
            return Err(DecodeError::InvalidBool);
        }
        Ok(GlobalAccount {
            discriminator: read_u64_le(data, 0),
            initialized: flag == 1,
            authority_bytes: read_key(data, 9),
            fee_recipient_bytes: read_key(data, 41),
            initial_virtual_token_reserves: read_u64_le(data, 73),
            initial_virtual_sol_reserves: read_u64_le(data, 81),
            initial_real_token_reserves: read_u64_le(data, 89),
            token_total_supply: read_u64_le(data, 97),
            fee_basis_points: read_u64_le(data, 105),
        })
    }

    /// The record's wire form, `ACCOUNT_LEN` bytes long.
    pub fn encode(&self) -> (r: Vec<u8>)
        ensures
            r@ == account_bytes(*self),
    {
        let mut out: Vec<u8> = Vec::new();
        push_u64_le(&mut out, self.discriminator);
        out.push(if self.initialized { 1u8 } else { 0u8 });
        push_key(&mut out, &self.authority_bytes);
        push_key(&mut out, &self.fee_recipient_bytes);
        push_u64_le(&mut out, self.initial_virtual_token_reserves);
        push_u64_le(&mut out, self.initial_virtual_sol_reserves);
        push_u64_le(&mut out, self.initial_real_token_reserves);
        push_u64_le(&mut out, self.token_total_supply);
        push_u64_le(&mut out, self.fee_basis_points);
        assert(out@ =~= account_bytes(*self));
        out
    }

    /// Tokens received for `amount` SOL on the initial bonding curve: the curve
    /// output `virtual_tokens - (k / (virtual_sol + amount) + 1)`, capped by the
    /// real token reserves. Nothing is bought with zero SOL.
    pub fn get_initial_buy_price(&self, amount: u64) -> (r: Result<u64, ArithmeticError>)
        ensures
            r is Ok <==> buy_quotable(*self, amount),
            r is Ok ==> r->Ok_0 == buy_quote(*self, amount),
            r is Ok ==> r->Ok_0 <= self.initial_real_token_reserves,
            amount == 0 ==> r == Ok::<u64, ArithmeticError>(0),
    {
        if amount == 0 {
            return Ok(0);
        }
        let sol = self.initial_virtual_sol_reserves as u128;
        let tokens = self.initial_virtual_token_reserves as u128;
        proof {
            lemma_product_fits(self.initial_virtual_sol_reserves, self.initial_virtual_token_reserves);
        }
        let product: u128 = sol * tokens;
        let new_sol: u128 = sol + amount as u128;
        assert(product / new_sol <= product) by (nonlinear_arith)
            requires
                new_sol >= 1,
                product >= 0,
        ;
        let reserve: u128 = product / new_sol + 1;
        if reserve > tokens {
            return Err(ArithmeticError::Underflow);
        }
        let out: u128 = tokens - reserve;
        if out < self.initial_real_token_reserves as u128 {
            Ok(out as u64)
        } else {
            Ok(self.initial_real_token_reserves)
        }
    }
}

} // verus!
