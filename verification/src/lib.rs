//! Client library for a market-data provider: typed requests for quotes,
//! option chains, expirations and history, and a live-data subscription
//! multiplexer that fans one upstream feed out to many clients.

pub mod error;
pub mod expirations;
pub mod options;
pub mod query;
pub mod router;
pub mod session;
pub mod subscription;
pub mod supervisor;
pub mod types;
pub mod util;

pub use error::TradierError;
pub use expirations::{clear_expirations_cache, get_expirations_cache_size, ExpirationsCache};
pub use options::{parse_occ_option_symbol, OptionSpec};
pub use query::{
    api_url, chain_query, dividends_query, expirations_query, history_query, orders_query,
    quote_query, quotes_query,
};
pub use router::{process_message, route_to_interested};
pub use session::{all_json_plain, extract_session_id, is_json_plain, subscribe_frame};
pub use subscription::{ClientSubscription, MarketData, PrintHandler, SubscriptionRegistry};
pub use supervisor::{
    session_step, supervisor_step, FrameEvent, SessionAction, SessionState, SupervisorAction,
    SupervisorEvent,
};
pub use types::{Interval, OneOrMore, OptionRight};
pub use util::{date_to_tradier, tradier_to_date, Date};
