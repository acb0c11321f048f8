use vstd::prelude::*;

verus! {

/// What the library reads of the external insurance pool: its shares, the
/// part of them that users hold, and the exponent of its share unit.
#[derive(Clone, Copy, Debug, PartialEq, Eq, Structural)]
pub struct InsuranceFund {
    pub total_shares: u128,
    pub user_shares: u128,
    pub shares_base: u128,
}

/// Recent oracle prices of the quote market.
#[derive(Clone, Copy, Debug, PartialEq, Eq, Structural)]
pub struct HistoricalOracleData {
    pub last_oracle_price: i64,
    pub last_oracle_price_twap_5min: i64,
}

/// Snapshot of the external quote market that pays the prizes.
#[derive(Clone, Copy, Debug, PartialEq, Eq, Structural)]
pub struct SpotMarket {
    pub decimals: u32,
    pub insurance_fund: InsuranceFund,
    pub historical_oracle_data: HistoricalOracleData,
}

impl Default for InsuranceFund {
    fn default() -> (r: Self)
        ensures
            r.total_shares == 0 && r.user_shares == 0 && r.shares_base == 0,
    {
        InsuranceFund { total_shares: 0, user_shares: 0, shares_base: 0 }
    }
}

impl Default for HistoricalOracleData {
    fn default() -> (r: Self)
        ensures
            r.last_oracle_price == 0 && r.last_oracle_price_twap_5min == 0,
    {
        HistoricalOracleData { last_oracle_price: 0, last_oracle_price_twap_5min: 0 }
    }
}

impl Default for SpotMarket {
    fn default() -> (r: Self)
        ensures
            r.decimals == 0,
            r.insurance_fund == (InsuranceFund { total_shares: 0, user_shares: 0, shares_base: 0 }),
            r.historical_oracle_data == (HistoricalOracleData {
                last_oracle_price: 0,
                last_oracle_price_twap_5min: 0,
            }),
    {
        SpotMarket {
            decimals: 0,
            insurance_fund: InsuranceFund::default(),
            historical_oracle_data: HistoricalOracleData::default(),
        }
    }
}

} // verus!
