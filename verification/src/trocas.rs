//! The trade workflow: peer-requested permutations and coverages over
//! published rosters, their two-step approval, and the admin-forced
//! obligatory substitution.  Status only ever advances.

use vstd::prelude::*;
use crate::tipos::{EscalaDiaria, Troca, TipoTroca, StatusTroca, DetalheServico};
use crate::escala::DiaGerado;

verus! {

/// Relies on `uuid::Uuid::new_v4` and its hyphenated rendering: a fresh
/// random identifier of thirty-six characters.  Nothing else is promised of
/// the value.
#[verifier::external_body]
fn novo_id_troca() -> (r: String)
    ensures
        r@.len() == 36,
{
    uuid::Uuid::new_v4().to_string()
}

/// A trade-request status may only stand still or advance: pending-target to
/// pending-admin or rejected, pending-admin to approved or rejected.
pub open spec fn transicao_valida(antes: StatusTroca, depois: StatusTroca) -> bool {
    ||| antes == depois
    ||| (antes is PendenteAlvo && (depois is PendenteAdmin || depois is Recusada))
    ||| (antes is PendenteAdmin && (depois is Aprovada || depois is Recusada))
}

/// Every record keeps its identity and only advances its status.
pub open spec fn trocas_avancam(antes: Seq<Troca>, depois: Seq<Troca>) -> bool {
    &&& antes.len() == depois.len()
    &&& forall|k: int|
        0 <= k < antes.len() ==> {
            let a = antes[k];
            let d = #[trigger] depois[k];
            &&& d.id == a.id
            &&& d.tipo == a.tipo
            &&& d.requerente == a.requerente
            &&& d.alvo == a.alvo
            &&& d.motivo == a.motivo
            &&& transicao_valida(a.status, d.status)
        }
}

/// Files a new trade request: it is appended, addressed to the target, in
/// the pending-target state, under a fresh identifier which is returned.
pub fn pedir_troca(
    trocas: &mut Vec<Troca>,
    tipo: TipoTroca,
    requerente: DetalheServico,
    alvo: DetalheServico,
    motivo: String,
) -> (r: String)
    ensures
        final(trocas)@.len() == old(trocas)@.len() + 1,
        forall|k: int| 0 <= k < old(trocas)@.len() ==> final(trocas)@[k] == old(trocas)@[k],
        ({
            let nova = final(trocas)@.last();
            &&& nova.tipo == tipo
            &&& nova.requerente == requerente
            &&& nova.alvo == alvo
            &&& nova.motivo == motivo
            &&& nova.status is PendenteAlvo
            &&& nova.id@ == r@
            &&& r@.len() == 36
        }),
{
    let id = novo_id_troca();
    let copia = id.clone();
    trocas.push(
        Troca { id, tipo, requerente, alvo, motivo, status: StatusTroca::PendenteAlvo },
    );
    copia
}

/// The first trade request with the given identifier.
#[verifier::loop_isolation(false)]
pub fn procurar_troca(trocas: &Vec<Troca>, troca_id: &String) -> (r: Option<usize>)
    ensures
        match r {
            Some(i) => i < trocas@.len() && trocas@[i as int].id@ == troca_id@ && (forall|k: int|
                0 <= k < i ==> (#[trigger] trocas@[k]).id@ != troca_id@),
            None => forall|k: int| 0 <= k < trocas@.len() ==> (#[trigger] trocas@[k]).id@ != troca_id@,
        },
{
    let mut i: usize = 0;
    while i < trocas.len()
        invariant
            0 <= i <= trocas@.len(),
            forall|k: int| 0 <= k < i ==> (#[trigger] trocas@[k]).id@ != troca_id@,
        decreases trocas@.len() - i,
    {
        if trocas[i].id.eq(troca_id) {
            return Some(i);
        }
        i = i + 1;
    }
    None
}

/// The target's answer to a pending trade, §4.6: only the addressed target
/// may act, only on a pending-target request; accepting passes it to the
/// admin, declining rejects it.  Anything else changes nothing.
pub fn responder_troca(
    trocas: &mut Vec<Troca>,
    troca_id: &String,
    user_id: &String,
    aceitar: bool,
)
    ensures
        trocas_avancam(old(trocas)@, final(trocas)@),
        forall|i: int|
            #![trigger old(trocas)@[i]]
            0 <= i < old(trocas)@.len() && old(trocas)@[i].id@ == troca_id@ && (forall|k: int|
                0 <= k < i ==> (#[trigger] old(trocas)@[k]).id@ != troca_id@) ==> {
                let t = old(trocas)@[i];
                if t.alvo.user_id@ == user_id@ && t.status is PendenteAlvo {
                    final(trocas)@[i].status == (if aceitar {
                        StatusTroca::PendenteAdmin
                    } else {
                        StatusTroca::Recusada
                    }) && (forall|k: int|
                        0 <= k < old(trocas)@.len() && k != i ==> #[trigger] final(trocas)@[k]
                            == old(trocas)@[k])
                } else {
                    final(trocas)@ == old(trocas)@
                }
            },
        (forall|k: int| 0 <= k < old(trocas)@.len() ==> (#[trigger] old(trocas)@[k]).id@ != troca_id@)
            ==> final(trocas)@ == old(trocas)@,
{
    let i = match procurar_troca(trocas, troca_id) {
        Some(i) => i,
        None => {
            return ;
        },
    };
    if !trocas[i].alvo.user_id.eq(user_id) {
        return ;
    }
    if !matches!(trocas[i].status, StatusTroca::PendenteAlvo) {
        return ;
    }
    let novo = if aceitar {
        StatusTroca::PendenteAdmin
    } else {
        StatusTroca::Recusada
    };
    trocas[i].status = novo;
    proof {
        assert forall|i2: int|
            #![trigger old(trocas)@[i2]]
            0 <= i2 < old(trocas)@.len() && old(trocas)@[i2].id@ == troca_id@ && (forall|k: int|
                0 <= k < i2 ==> (#[trigger] old(trocas)@[k]).id@ != troca_id@) implies i2
            == i as int by {
            if i2 < i as int {
                assert(old(trocas)@[i2].id@ != troca_id@);
            }
            if i2 > i as int {
                assert(old(trocas)@[i as int].id@ != troca_id@);
            }
        }
    }
}

/// The first loaded day with the given date.
#[verifier::loop_isolation(false)]
pub fn procurar_dia(dias: &Vec<DiaGerado>, data: i64) -> (r: Option<usize>)
    ensures
        match r {
            Some(i) => i < dias@.len() && dias@[i as int].data == data && (forall|k: int|
                0 <= k < i ==> (#[trigger] dias@[k]).data != data),
            None => forall|k: int| 0 <= k < dias@.len() ==> (#[trigger] dias@[k]).data != data,
        },
{
    let mut i: usize = 0;
    while i < dias.len()
        invariant
            0 <= i <= dias@.len(),
            forall|k: int| 0 <= k < i ==> (#[trigger] dias@[k]).data != data,
        decreases dias@.len() - i,
    {
        if dias[i].data == data {
            return Some(i);
        }
        i = i + 1;
    }
    None
}

/// Whether the person holds any slot of the day: some post slot or some
/// standby place names them.
#[verifier::opaque]
pub open spec fn pessoa_no_dia(e: EscalaDiaria, id: Seq<char>) -> bool {
    (exists|pi: int, h: int|
        0 <= pi < e.escala.len() && 0 <= h < (#[trigger] e.escala[pi]).horarios.len()
            && (#[trigger] e.escala[pi].horarios[h]).alocacao.user_id@ == id) || (exists|ri: int|
        0 <= ri < e.retem.len() && (#[trigger] e.retem[ri]).user_id@ == id)
}

/// Membership in a day's roster, executed.
#[verifier::loop_isolation(false)]
pub fn escalado_no_dia(e: &EscalaDiaria, id: &String) -> (r: bool)
    ensures
        r == pessoa_no_dia(*e, id@),
{
    proof {
        reveal(pessoa_no_dia);
    }
    let mut pi: usize = 0;
    while pi < e.escala.len()
        invariant
            0 <= pi <= e.escala@.len(),
            forall|p2: int, h2: int|
                0 <= p2 < pi && 0 <= h2 < (#[trigger] e.escala@[p2]).horarios.len()
                    ==> (#[trigger] e.escala@[p2].horarios@[h2]).alocacao.user_id@ != id@,
        decreases e.escala@.len() - pi,
    {
        let mut h: usize = 0;
        while h < e.escala[pi].horarios.len()
            invariant
                pi < e.escala@.len(),
                0 <= h <= e.escala@[pi as int].horarios@.len(),
                forall|p2: int, h2: int|
                    0 <= p2 < pi && 0 <= h2 < (#[trigger] e.escala@[p2]).horarios.len()
                        ==> (#[trigger] e.escala@[p2].horarios@[h2]).alocacao.user_id@ != id@,
                forall|h2: int|
                    0 <= h2 < h ==> (#[trigger] e.escala@[pi as int].horarios@[h2]).alocacao.user_id@
                        != id@,
            decreases e.escala@[pi as int].horarios@.len() - h,
        {
            if e.escala[pi].horarios[h].alocacao.user_id.eq(id) {
                return true;
            }
            h = h + 1;
        }
        pi = pi + 1;
    }
    let mut ri: usize = 0;
    while ri < e.retem.len()
        invariant
            0 <= ri <= e.retem@.len(),
            forall|p2: int, h2: int|
                0 <= p2 < e.escala@.len() && 0 <= h2 < (#[trigger] e.escala@[p2]).horarios.len()
                    ==> (#[trigger] e.escala@[p2].horarios@[h2]).alocacao.user_id@ != id@,
            forall|r2: int| 0 <= r2 < ri ==> (#[trigger] e.retem@[r2]).user_id@ != id@,
        decreases e.retem@.len() - ri,
    {
        if e.retem[ri].user_id.eq(id) {
            return true;
        }
        ri = ri + 1;
    }
    false
}

/// Whether the person is on duty on some published day of the given date:
/// the day file that a date addresses is its first loaded roster.
#[verifier::opaque]
pub open spec fn conflito_em(dias: Seq<DiaGerado>, id: Seq<char>, data: i64) -> bool {
    exists|i: int|
        0 <= i < dias.len() && (#[trigger] dias[i]).data == data && (forall|k: int|
            0 <= k < i ==> (#[trigger] dias[k]).data != data) && pessoa_no_dia(dias[i].escala, id)
}

/// Conflict on any of the given dates, executed.
#[verifier::loop_isolation(false)]
pub fn verificar_conflito_escala(
    dias: &Vec<DiaGerado>,
    user_id: &String,
    datas: &Vec<i64>,
) -> (r: bool)
    ensures
        r == exists|k: int| 0 <= k < datas@.len() && conflito_em(dias@, user_id@, datas@[k]),
{
    proof {
        reveal(conflito_em);
    }
    let mut k: usize = 0;
    while k < datas.len()
        invariant
            0 <= k <= datas@.len(),
            forall|k2: int| 0 <= k2 < k ==> !conflito_em(dias@, user_id@, #[trigger] datas@[k2]),
        decreases datas@.len() - k,
    {
        match procurar_dia(dias, datas[k]) {
            Some(i) => {
                if escalado_no_dia(&dias[i].escala, user_id) {
                    proof {
                        assert(conflito_em(dias@, user_id@, datas@[k as int]));
                    }
                    return true;
                }
                proof {
                    assert forall|i2: int|
                        0 <= i2 < dias@.len() && (#[trigger] dias@[i2]).data == datas@[k as int] && (
                        forall|k3: int|
                            0 <= k3 < i2 ==> (#[trigger] dias@[k3]).data != datas@[k as int])
                        implies !pessoa_no_dia(dias@[i2].escala, user_id@) by {
                        if i2 < i as int {
                            assert(dias@[i2].data != datas@[k as int]);
                        }
                        if i2 > i as int {
                            assert(dias@[i as int].data != datas@[k as int]);
                        }
                    }
                }
            },
            None => {},
        }
        k = k + 1;
    }
    false
}

/// Whether serving on `data` would sit adjacent to another commitment: the
/// published rosters of the day before or the day after already hold the
/// person.  Informational for trade approval, binding for substitution.
#[verifier::rlimit(100)]
pub fn verificar_risco_fadiga(dias: &Vec<DiaGerado>, user_id: &String, data: i64) -> (r: bool)
    requires
        i64::MIN < data < i64::MAX,
    ensures
        r == (conflito_em(dias@, user_id@, (data - 1) as i64) || conflito_em(dias@, user_id@, (data + 1) as i64)),
{
    let mut datas: Vec<i64> = Vec::new();
    datas.push(data - 1);
    datas.push(data + 1);
    let r = verificar_conflito_escala(dias, user_id, &datas);
    proof {
        assert(datas@.len() == 2 && datas@[0] == data - 1 && datas@[1] == data + 1);
        if r {
            let k = choose|k: int|
                0 <= k < datas@.len() && conflito_em(dias@, user_id@, #[trigger] datas@[k]);
            assert(k == 0 || k == 1);
        }
        if conflito_em(dias@, user_id@, (data - 1) as i64) {
            assert(conflito_em(dias@, user_id@, datas@[0]));
        }
        if conflito_em(dias@, user_id@, (data + 1) as i64) {
            assert(conflito_em(dias@, user_id@, datas@[1]));
        }
    }
    r
}


} // verus!
