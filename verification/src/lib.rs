//! Duty-roster scheduling for a residential academy: daily post assignment
//! with fairness counters, debt settlement, forced-service quotas, standby
//! rotation, and the trade/substitution workflow that amends published
//! rosters.

use vstd::prelude::*;

pub mod tipos;
pub mod texto;
pub mod contagem;
pub mod dividas;
pub mod escala;
pub mod trocas;
pub mod substituicao;
pub mod apoio;
pub mod gestao;
