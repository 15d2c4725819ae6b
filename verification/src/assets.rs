//! Amounts of several assets.

use borsh::BorshSerialize;
use vstd::bytes::spec_u64_to_le_bytes;
use vstd::prelude::*;

verus! {

/// The identifier of a shielded asset.
#[derive(Clone, Copy, Debug, PartialEq, Eq)]
pub struct AssetType(pub [u8; 32]);

/// Whether two assets are the same.
pub fn same_asset(a: &AssetType, b: &AssetType) -> (same: bool)
    ensures
        same == (a.0@ == b.0@),
{
    let mut i: usize = 0;
    while i < 32
        invariant
            i <= 32,
            forall|j: int| 0 <= j < i ==> a.0@[j] == b.0@[j],
        decreases 32 - i,
    {
        if a.0[i] != b.0[i] {
            return false;
        }
        i = i + 1;
    }
    assert(a.0@ =~= b.0@);
    true
}

/// Serializes a number with `BorshSerialize::try_to_vec`: eight bytes, the lowest first.
/// Writing into a vector does not fail.
#[verifier::external_body]
fn borsh_u64(n: u64) -> (bytes: Vec<u8>)
    ensures
        bytes@ == spec_u64_to_le_bytes(n),
{
    n.try_to_vec().expect("numbers should serialize")
}

/// The bytes of a token's address, and behind them those of an epoch, the lowest first.
pub open spec fn name_bytes(token: Seq<u8>, epoch: u64) -> Seq<u8> {
    token + spec_u64_to_le_bytes(epoch)
}

/// The name of a token's asset in an epoch, from which its identifier is derived: the
/// serialized pair of the token's address and the epoch. A serialized pair is its parts,
/// one behind the other.
pub fn asset_name(token: &Vec<u8>, epoch: u64) -> (name: Vec<u8>)
    ensures
        name@ == name_bytes(token@, epoch),
{
    let mut name: Vec<u8> = Vec::new();
    let mut i: usize = 0;
    while i < token.len()
        invariant
            i <= token.len(),
            name@ == token@.take(i as int),
        decreases token.len() - i,
    {
        name.push(token[i]);
        assert(name@ =~= token@.take(i + 1));
        i = i + 1;
    }
    assert(name@ =~= token@);
    let mut tail = borsh_u64(epoch);
    name.append(&mut tail);
    name
}

/// The component of an amount for an asset; zero where the amount has none.
pub open spec fn component(amount: Seq<(AssetType, i64)>, asset: Seq<u8>) -> i64
    decreases amount.len(),
{
    if amount.len() == 0 {
        0
    } else if amount[0].0.0@ == asset {
        amount[0].1
    } else {
        component(amount.drop_first(), asset)
    }
}

/// The component of an amount for a token; zero where the amount has none.
pub open spec fn token_component(amount: Seq<(String, i64)>, token: Seq<char>) -> i64
    decreases amount.len(),
{
    if amount.len() == 0 {
        0
    } else if amount[0].0@ == token {
        amount[0].1
    } else {
        token_component(amount.drop_first(), token)
    }
}

/// Get the component of the given amount that belongs to the asset of a token, with the
/// asset.
pub fn value_by_address(amt: &Vec<(AssetType, i64)>, asset: AssetType) -> (result: (
    AssetType,
    i64,
))
    ensures
        result.0 == asset,
        result.1 == component(amt@, asset.0@),
{
    let mut i: usize = 0;
    assert(amt@.skip(0) =~= amt@);
    while i < amt.len()
        invariant
            i <= amt.len(),
            component(amt@, asset.0@) == component(amt@.skip(i as int), asset.0@),
        decreases amt.len() - i,
    {
        assert(amt@.skip(i as int)[0] == amt@[i as int]);
        if same_asset(&amt[i].0, &asset) {
            return (asset, amt[i].1);
        }
        assert(amt@.skip(i as int).drop_first() =~= amt@.skip(i + 1));
        i = i + 1;
    }
    (asset, 0)
}

/// The component of an amount for a token.
pub fn value_of_token(amount: &Vec<(String, i64)>, token: &String) -> (value: i64)
    ensures
        value == token_component(amount@, token@),
{
    let mut i: usize = 0;
    assert(amount@.skip(0) =~= amount@);
    while i < amount.len()
        invariant
            i <= amount.len(),
            token_component(amount@, token@) == token_component(
                amount@.skip(i as int),
                token@,
            ),
        decreases amount.len() - i,
    {
        assert(amount@.skip(i as int)[0] == amount@[i as int]);
        if amount[i].0 == *token {
            return amount[i].1;
        }
        assert(amount@.skip(i as int).drop_first() =~= amount@.skip(i + 1));
        i = i + 1;
    }
    0
}

/// A value as a token amount: itself, modulo two to the power 64.
pub open spec fn as_amount(value: i64) -> u64 {
    if value >= 0 {
        value as u64
    } else {
        (value + 0x1_0000_0000_0000_0000) as u64
    }
}

/// A value as a token amount.
pub fn to_amount(value: i64) -> (amount: u64)
    ensures
        amount == as_amount(value),
{
    if value >= 0 {
        value as u64
    } else {
        u64::MAX - (-(value + 1)) as u64
    }
}

/// A value without its sign.
pub open spec fn magnitude(value: i64) -> u64 {
    if value >= 0 {
        value as u64
    } else {
        (-value) as u64
    }
}

/// A value without its sign.
pub fn unsigned_abs(value: i64) -> (amount: u64)
    ensures
        amount == magnitude(value),
{
    if value >= 0 {
        value as u64
    } else {
        (-(value + 1)) as u64 + 1
    }
}

/// The sign that is shown in front of a value.
pub open spec fn sign(value: i64) -> Seq<char> {
    if value > 0 {
        "+"@
    } else if value < 0 {
        "-"@
    } else {
        ""@
    }
}

/// The sign that is shown in front of a value.
pub fn sign_of(value: i64) -> (text: &'static str)
    ensures
        text@ == sign(value),
{
    if value > 0 {
        "+"
    } else if value < 0 {
        "-"
    } else {
        ""
    }
}

/// Different tokens have different names, and so has one token in different epochs.
pub proof fn lemma_asset_names_differ(
    token_a: Seq<u8>,
    epoch_a: u64,
    token_b: Seq<u8>,
    epoch_b: u64,
)
    requires
        name_bytes(token_a, epoch_a) == name_bytes(token_b, epoch_b),
    ensures
        token_a == token_b,
        epoch_a == epoch_b,
{
    let a = token_a + spec_u64_to_le_bytes(epoch_a);
    let b = token_b + spec_u64_to_le_bytes(epoch_b);
    vstd::bytes::lemma_auto_spec_u64_to_from_le_bytes();
    let len = a.len() - 8;
    assert(token_a.len() == len);
    assert(token_b.len() == len);
    assert(token_a =~= a.subrange(0, len));
    assert(token_b =~= b.subrange(0, len));
    assert(spec_u64_to_le_bytes(epoch_a) =~= a.subrange(len, a.len() as int));
    assert(spec_u64_to_le_bytes(epoch_b) =~= b.subrange(len, b.len() as int));
}

/// The first part of an amount for an asset is its component, whatever stands around it.
pub proof fn lemma_first_part_is_component(amount: Seq<(AssetType, i64)>, asset: Seq<u8>, i: int)
    requires
        0 <= i < amount.len(),
        amount[i].0.0@ == asset,
        forall|j: int| 0 <= j < i ==> (#[trigger] amount[j]).0.0@ != asset,
    ensures
        component(amount, asset) == amount[i].1,
    decreases amount.len(),
{
    if i > 0 {
        assert(amount[0].0.0@ != asset);
        let rest = amount.drop_first();
        assert(rest[i - 1] == amount[i]);
        assert forall|j: int| 0 <= j < i - 1 implies (#[trigger] rest[j]).0.0@ != asset by {
            assert(rest[j] == amount[j + 1]);
        }
        lemma_first_part_is_component(rest, asset, i - 1);
    }
}

/// An amount without a part for an asset holds nothing of it.
pub proof fn lemma_no_part_no_component(amount: Seq<(AssetType, i64)>, asset: Seq<u8>)
    requires
        forall|j: int| 0 <= j < amount.len() ==> (#[trigger] amount[j]).0.0@ != asset,
    ensures
        component(amount, asset) == 0,
    decreases amount.len(),
{
    if amount.len() > 0 {
        assert(amount[0].0.0@ != asset);
        let rest = amount.drop_first();
        assert forall|j: int| 0 <= j < rest.len() implies (#[trigger] rest[j]).0.0@ != asset by {
            assert(rest[j] == amount[j + 1]);
        }
        lemma_no_part_no_component(rest, asset);
    }
}

/// The first part of an amount for a token is its component, whatever stands around it.
pub proof fn lemma_first_part_is_token_component(
    amount: Seq<(String, i64)>,
    token: Seq<char>,
    i: int,
)
    requires
        0 <= i < amount.len(),
        amount[i].0@ == token,
        forall|j: int| 0 <= j < i ==> (#[trigger] amount[j]).0@ != token,
    ensures
        token_component(amount, token) == amount[i].1,
    decreases amount.len(),
{
    if i > 0 {
        assert(amount[0].0@ != token);
        let rest = amount.drop_first();
        assert(rest[i - 1] == amount[i]);
        assert forall|j: int| 0 <= j < i - 1 implies (#[trigger] rest[j]).0@ != token by {
            assert(rest[j] == amount[j + 1]);
        }
        lemma_first_part_is_token_component(rest, token, i - 1);
    }
}

/// An amount without a part for a token holds nothing of it.
pub proof fn lemma_no_part_no_token_component(amount: Seq<(String, i64)>, token: Seq<char>)
    requires
        forall|j: int| 0 <= j < amount.len() ==> (#[trigger] amount[j]).0@ != token,
    ensures
        token_component(amount, token) == 0,
    decreases amount.len(),
{
    if amount.len() > 0 {
        assert(amount[0].0@ != token);
        let rest = amount.drop_first();
        assert forall|j: int| 0 <= j < rest.len() implies (#[trigger] rest[j]).0@ != token by {
            assert(rest[j] == amount[j + 1]);
        }
        lemma_no_part_no_token_component(rest, token);
    }
}

/// A value and the amount that it is turned into differ by a multiple of two to the power 64.
pub proof fn lemma_amounts_wrap(value: i64)
    ensures
        as_amount(value) - value == 0 || as_amount(value) - value == 0x1_0000_0000_0000_0000,
        value >= 0 ==> as_amount(value) == value,
{
}

/// What is shown of a signed value is the value: a plus or a minus in front of its distance
/// from zero, and no sign in front of zero.
pub proof fn lemma_shown_value_is_the_value(value: i64)
    ensures
        sign(value) == "-"@ ==> value == -magnitude(value),
        sign(value) != "-"@ ==> value == magnitude(value),
        sign(value) == "+"@ <==> value > 0,
        sign(value) == "-"@ <==> value < 0,
        sign(value) == ""@ <==> value == 0,
{
    reveal_strlit("+");
    reveal_strlit("-");
    reveal_strlit("");
    assert("+"@.len() == 1 && "-"@.len() == 1 && ""@.len() == 0);
    assert("+"@[0] != "-"@[0]);
}

/// The name of an asset begins with the token's address and ends in the eight bytes of the
/// epoch, from which it can be read back.
pub proof fn lemma_parts_of_an_asset_name(token: Seq<u8>, epoch: u64)
    ensures
        name_bytes(token, epoch).len() == token.len() + 8,
        name_bytes(token, epoch).take(token.len() as int) == token,
        vstd::bytes::spec_u64_from_le_bytes(name_bytes(token, epoch).skip(token.len() as int))
            == epoch,
{
    vstd::bytes::lemma_auto_spec_u64_to_from_le_bytes();
    assert(name_bytes(token, epoch).take(token.len() as int) =~= token);
    assert(name_bytes(token, epoch).skip(token.len() as int) =~= spec_u64_to_le_bytes(epoch));
}

} // verus!
