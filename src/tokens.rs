//! Token equivalence: token identifiers grouped into classes of
//! economically interchangeable assets.
use vstd::prelude::*;
use vstd::string::StringSliceAdditionalSpecFns;
use vstd::utf8::{decode_utf8, encode_utf8_decode_utf8};

verus! {

/// The equivalence class of a token identifier.
#[derive(Debug, Clone, Copy, PartialEq, Eq, Structural)]
pub enum TokenClass {
    Stablecoins,
    EthGroup,
    BtcGroup,
    /// Any other identifier, which forms a class of its own.
    Singleton,
}

pub open spec fn is_stablecoin(t: Seq<char>) -> bool {
    t == "USDC"@ || t == "USDT"@ || t == "DAI"@ || t == "FRAX"@ || t == "BUSD"@
}

pub open spec fn is_eth_variant(t: Seq<char>) -> bool {
    t == "ETH"@ || t == "WETH"@ || t == "stETH"@
}

pub open spec fn is_btc_variant(t: Seq<char>) -> bool {
    t == "WBTC"@ || t == "renBTC"@ || t == "sBTC"@
}

pub open spec fn class_of(t: Seq<char>) -> TokenClass {
    if is_stablecoin(t) {
        TokenClass::Stablecoins
    } else if is_eth_variant(t) {
        TokenClass::EthGroup
    } else if is_btc_variant(t) {
        TokenClass::BtcGroup
    } else {
        TokenClass::Singleton
    }
}

/// Two tokens are equivalent when they fall in the same class; a token
/// outside the fixed classes is equivalent to itself alone.
pub open spec fn equivalent(a: Seq<char>, b: Seq<char>) -> bool {
    &&& class_of(a) == class_of(b)
    &&& class_of(a) == TokenClass::Singleton ==> a == b
}

/// The name of a token's class: the class's name for the fixed classes,
/// the token itself otherwise.
pub open spec fn class_name(t: Seq<char>) -> Seq<char> {
    match class_of(t) {
        TokenClass::Stablecoins => "STABLECOINS"@,
        TokenClass::EthGroup => "ETH_GROUP"@,
        TokenClass::BtcGroup => "BTC_GROUP"@,
        TokenClass::Singleton => t,
    }
}

/// Equality of two strings, character by character.
pub fn same_text(a: &str, b: &str) -> (r: bool)
    ensures
        r == (a@ == b@),
{
    let x = a.as_bytes();
    let y = b.as_bytes();
    proof {
        encode_utf8_decode_utf8(a@);
        encode_utf8_decode_utf8(b@);
    }
    if x.len() != y.len() {
        return false;
    }
    let mut i: usize = 0;
    while i < x.len()
        invariant
            x@.len() == y@.len(),
            a@ == b@ ==> x@ == y@,
            i <= x@.len(),
            forall|j: int| 0 <= j < i ==> x@[j] == y@[j],
        decreases x@.len() - i,
    {
        if x[i] != y[i] {
            return false;
        }
        i = i + 1;
    }
    assert(x@ =~= y@);
    assert(decode_utf8(x@) == a@);
    true
}

/// The equivalence class of `token`.
pub fn equivalence_class(token: &str) -> (r: TokenClass)
    ensures
        r == class_of(token@),
{
    if same_text(token, "USDC") || same_text(token, "USDT") || same_text(token, "DAI")
        || same_text(token, "FRAX") || same_text(token, "BUSD") {
        TokenClass::Stablecoins
    } else if same_text(token, "ETH") || same_text(token, "WETH") || same_text(token, "stETH") {
        TokenClass::EthGroup
    } else if same_text(token, "WBTC") || same_text(token, "renBTC") || same_text(token, "sBTC") {
        TokenClass::BtcGroup
    } else {
        TokenClass::Singleton
    }
}

/// The name of the equivalence class of `token`.
pub fn get_token_equivalence_group<'a>(token: &'a str) -> (r: &'a str)
    ensures
        r@ == class_name(token@),
{
    match equivalence_class(token) {
        TokenClass::Stablecoins => "STABLECOINS",
        TokenClass::EthGroup => "ETH_GROUP",
        TokenClass::BtcGroup => "BTC_GROUP",
        TokenClass::Singleton => token,
    }
}

/// Whether two tokens are economically equivalent.
pub fn are_tokens_equivalent(token_a: &str, token_b: &str) -> (r: bool)
    ensures
        r == equivalent(token_a@, token_b@),
{
    let class = equivalence_class(token_a);
    if class != equivalence_class(token_b) {
        false
    } else if class == TokenClass::Singleton {
        same_text(token_a, token_b)
    } else {
        true
    }
}

/// Token equivalence is reflexive, symmetric and transitive.
pub proof fn lemma_equivalence_is_an_equivalence(a: Seq<char>, b: Seq<char>, c: Seq<char>)
    ensures
        equivalent(a, a),
        equivalent(a, b) == equivalent(b, a),
        equivalent(a, b) && equivalent(b, c) ==> equivalent(a, c),
{
}

} // verus!
