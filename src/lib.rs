//! Entity resolution and anomaly scoring for public-procurement contract records.

mod anomaly;
mod benford;
mod contract;
mod float_bits;
mod paging;
mod resolver;
mod text;

pub use anomaly::{
    contract_flags, histogram_bucket, is_undefined_object, is_zero_value, object_flag, risk_level_for,
    score_contract, summarize, CorpusStats, RedFlag, RiskLevel,
};
pub use benford::{exceeds_critical_value, tally_first_digits, BenfordTally};
pub use contract::ContratoSecop;
pub use float_bits::{eq_bits, ge_bits, lt_bits};
pub use paging::{after_page, PageStep, PAGE_SIZE};
pub use resolver::{Contractor, EntityResolver, MatchResult, PartyId, FUZZY_THRESHOLD_BITS};
pub use text::{canonical_legal_id, remove_pattern, trim_text, DataCleaner, StandardCleaner};
