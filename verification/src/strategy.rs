//! The deposit strategy: the checks on deposits of the stable coin and the
//! one-time registration of the deposit token.

use vstd::prelude::*;
use crate::response::{text, AttrValue, Response};

verus! {

/// An amount of a native coin sent along with a message.
#[derive(Debug)]
pub struct Coin {
    pub denom: String,
    pub amount: u128,
}

/// The strategy's configuration; `dp_token` is empty until registered.
pub struct Config {
    pub stable_denom: String,
    pub dp_token: String,
    pub strategy: String,
    pub beneficiary: String,
}

/// The errors the strategy answers with.
#[derive(Debug)]
pub enum StrategyError {
    /// No amount of the stable coin was sent.
    InsufficientTokenAmount { denom: String },
    Unauthorized,
}

/// The amount of the first coin of denomination `denom` among `funds`, zero
/// where there is none.
pub open spec fn first_amount(funds: Seq<Coin>, denom: Seq<char>) -> u128
    decreases funds.len(),
{
    if funds.len() == 0 {
        0
    } else if funds[0].denom@ == denom {
        funds[0].amount
    } else {
        first_amount(funds.drop_first(), denom)
    }
}

/// The amount of the stable coin sent: that of the first coin of its
/// denomination.
pub fn deposit_amount(funds: &Vec<Coin>, denom: &String) -> (a: u128)
    ensures
        a == first_amount(funds@, denom@),
{
    let mut i: usize = 0;
    assert(funds@.skip(0) =~= funds@);
    while i < funds.len()
        invariant
            i <= funds@.len(),
            first_amount(funds@.skip(i as int), denom@) == first_amount(funds@, denom@),
        decreases funds@.len() - i,
    {
        if funds[i].denom == *denom {
            return funds[i].amount;
        }
        assert(funds@.skip(i as int).drop_first() =~= funds@.skip(i + 1));
        i = i + 1;
    }
    0
}

/// Accepts a deposit only when some amount of the stable coin came with it.
pub fn handle_deposit(config: &Config, funds: &Vec<Coin>) -> (r: Result<Response, StrategyError>)
    ensures
        r is Err <==> first_amount(funds@, config.stable_denom@) == 0,
        r matches Err(e) ==> e == (StrategyError::InsufficientTokenAmount { denom: config.stable_denom }),
        r matches Ok(resp) ==> resp.messages@.len() == 0 && resp.attributes@.len() == 0,
{
    let amount = deposit_amount(funds, &config.stable_denom);
    if amount == 0 {
        return Err(StrategyError::InsufficientTokenAmount { denom: config.stable_denom.clone() });
    }
    Ok(Response::new())
}

/// Registers `sender` as the deposit token, once: refused when one is
/// already registered.
pub fn handle_register_dp_token(config: &mut Config, sender: String) -> (r: Result<Response, StrategyError>)
    ensures
        r is Err <==> old(config).dp_token@.len() != 0,
        r is Err ==> r == Err::<Response, StrategyError>(StrategyError::Unauthorized) && *final(config) == *old(config),
        r matches Ok(resp) ==> {
            &&& final(config).dp_token == sender
            &&& final(config).stable_denom == old(config).stable_denom
            &&& final(config).strategy == old(config).strategy
            &&& final(config).beneficiary == old(config).beneficiary
            &&& resp.messages@.len() == 0
            &&& resp.attributes@ == seq![text("dp_token", sender)]
        },
{
    if config.dp_token.as_str().unicode_len() != 0 {
        return Err(StrategyError::Unauthorized);
    }
    config.dp_token = sender.clone();
    let mut response = Response::new();
    response.add_attribute("dp_token", AttrValue::Text(sender));
    assert(response.attributes@ =~= seq![text("dp_token", sender)]);
    Ok(response)
}

} // verus!
