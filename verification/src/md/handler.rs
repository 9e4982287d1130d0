//! Choosing the market data source for a run.

use vstd::prelude::*;

use crate::config::Mode;

verus! {

/// Where the market data of a run comes from.
#[derive(Debug, Clone)]
pub enum MarketDataPlan {
    /// The live feed for the symbol.
    Live { symbol: String },
    /// A recorded file, replayed for the symbol.
    Replay { symbol: String, file: String },
}

/// Why no market data source can be chosen.
#[derive(Debug, Clone, Copy, PartialEq, Eq, Structural)]
pub enum MarketDataError {
    /// No symbol is configured.
    NoSymbols,
    /// Replay mode without a replay file.
    NoReplayFile,
}

/// The source for a run: the first configured symbol, live or replayed from
/// the replay file; an error without symbols, or in replay mode without a
/// file.
pub fn plan_market_data(mode: Mode, symbols: &Vec<String>, replay_file: &Option<String>) -> (r:
    Result<MarketDataPlan, MarketDataError>)
    ensures
        symbols@.len() == 0 ==> r == Err::<MarketDataPlan, MarketDataError>(
            MarketDataError::NoSymbols,
        ),
        symbols@.len() > 0 && mode == Mode::Live ==> (r matches Ok(MarketDataPlan::Live { symbol })
            && symbol == symbols@[0]),
        symbols@.len() > 0 && mode == Mode::Replay && replay_file is None ==> r == Err::<
            MarketDataPlan,
            MarketDataError,
        >(MarketDataError::NoReplayFile),
        symbols@.len() > 0 && mode == Mode::Replay && replay_file is Some ==> (r matches Ok(
            MarketDataPlan::Replay { symbol, file },
        ) && symbol == symbols@[0] && file == replay_file->0),
{
    if symbols.len() == 0 {
        return Err(MarketDataError::NoSymbols);
    }
    let symbol = symbols[0].clone();
    match mode {
        Mode::Live => Ok(MarketDataPlan::Live { symbol }),
        Mode::Replay => match replay_file {
            Some(f) => Ok(MarketDataPlan::Replay { symbol, file: f.clone() }),
            None => Err(MarketDataError::NoReplayFile),
        },
    }
}

} // verus!
