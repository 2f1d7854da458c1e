//! Rewriting one published service: the slot-level mutation shared by trade
//! approval and obligatory substitution, with the admin decision functions
//! built on it.

use vstd::prelude::*;
use crate::tipos::{
    Alocacao, AlocacaoHorario, PostoEscalado, EscalaDiaria, DetalheServico, Posto, Troca,
    TipoTroca, StatusTroca, User, Divida, Indisponibilidade,
};
use crate::texto::{vistas, contem_str};
use crate::escala::{DiaGerado, com_sufixo, procurar_user, genero_compativel, genero_ok, contem_u8};
use crate::trocas::{procurar_dia, procurar_troca, trocas_avancam, verificar_conflito_escala, conflito_em};
use crate::dividas::{DividasAtivas, RegistoDividas, dividas_de};
use crate::gestao::indisponivel_em;
use vstd::string::StringExecFns;

verus! {

/// Whether the service `det` addresses stands on this day: the first standby
/// place of `det.user_id` for the reserve pseudo-post, else the first slot
/// labelled `det.horario` of the first post named `det.posto` — held by
/// `det.user_id` when the caller demands that.
#[verifier::opaque]
pub open spec fn dia_tem_servico(e: EscalaDiaria, det: DetalheServico, exigir_titular: bool) -> bool {
    if det.posto@ == "RETEM"@ {
        exists|ri: int| 0 <= ri < e.retem@.len() && (#[trigger] e.retem@[ri]).user_id@ == det.user_id@
    } else {
        exists|pi: int, h: int|
            #![trigger e.escala@[pi].horarios@[h]]
            {
                &&& 0 <= pi < e.escala@.len()
                &&& e.escala@[pi].posto@ == det.posto@
                &&& (forall|k: int| 0 <= k < pi ==> (#[trigger] e.escala@[k]).posto@ != det.posto@)
                &&& 0 <= h < e.escala@[pi].horarios@.len()
                &&& e.escala@[pi].horarios@[h].horario@ == det.horario@
                &&& (forall|k: int|
                    0 <= k < h ==> (#[trigger] e.escala@[pi].horarios@[k]).horario@ != det.horario@)
                &&& (exigir_titular ==> e.escala@[pi].horarios@[h].alocacao.user_id@ == det.user_id@)
            }
    }
}

/// One day after rewriting the service `det` addresses so that it holds a
/// person of the given id, label and flag: exactly that one assignment
/// differs.
#[verifier::opaque]
pub open spec fn dia_reescrito(
    a: EscalaDiaria,
    d: EscalaDiaria,
    det: DetalheServico,
    id: Seq<char>,
    nome: Seq<char>,
    punicao: bool,
) -> bool {
    &&& d.tipo_dia == a.tipo_dia
    &&& if det.posto@ == "RETEM"@ {
        &&& d.escala@ == a.escala@
        &&& d.retem@.len() == a.retem@.len()
        &&& exists|ri: int|
            #![trigger a.retem@[ri]]
            {
                &&& 0 <= ri < a.retem@.len()
                &&& a.retem@[ri].user_id@ == det.user_id@
                &&& (forall|k: int| 0 <= k < ri ==> (#[trigger] a.retem@[k]).user_id@ != det.user_id@)
                &&& (forall|k: int|
                    0 <= k < a.retem@.len() && k != ri ==> #[trigger] d.retem@[k] == a.retem@[k])
                &&& d.retem@[ri].user_id@ == id
                &&& d.retem@[ri].nome@ == nome
                &&& d.retem@[ri].punicao == punicao
            }
    } else {
        &&& d.retem@ == a.retem@
        &&& d.escala@.len() == a.escala@.len()
        &&& exists|pi: int, h: int|
            #![trigger a.escala@[pi].horarios@[h]]
            {
                &&& 0 <= pi < a.escala@.len()
                &&& a.escala@[pi].posto@ == det.posto@
                &&& (forall|k: int| 0 <= k < pi ==> (#[trigger] a.escala@[k]).posto@ != det.posto@)
                &&& 0 <= h < a.escala@[pi].horarios@.len()
                &&& a.escala@[pi].horarios@[h].horario@ == det.horario@
                &&& (forall|k: int|
                    0 <= k < h ==> (#[trigger] a.escala@[pi].horarios@[k]).horario@ != det.horario@)
                &&& (forall|k: int|
                    0 <= k < a.escala@.len() && k != pi ==> #[trigger] d.escala@[k] == a.escala@[k])
                &&& d.escala@[pi].posto == a.escala@[pi].posto
                &&& d.escala@[pi].horarios@ == a.escala@[pi].horarios@.update(
                    h,
                    AlocacaoHorario {
                        horario: a.escala@[pi].horarios@[h].horario,
                        alocacao: Alocacao {
                            user_id: d.escala@[pi].horarios@[h].alocacao.user_id,
                            nome: d.escala@[pi].horarios@[h].alocacao.nome,
                            punicao,
                        },
                    },
                )
                &&& d.escala@[pi].horarios@[h].alocacao.user_id@ == id
                &&& d.escala@[pi].horarios@[h].alocacao.nome@ == nome
                &&& d.escala@[pi].horarios@[h].alocacao.punicao == punicao
            }
    }
}

/// Whether the service `det` addresses stands among the loaded days: on the
/// first day of its date.
#[verifier::opaque]
pub open spec fn servico_presente(
    ds: Seq<DiaGerado>,
    det: DetalheServico,
    exigir_titular: bool,
) -> bool {
    exists|di: int|
        #![trigger ds[di]]
        {
            &&& 0 <= di < ds.len()
            &&& ds[di].data == det.data
            &&& (forall|k: int| 0 <= k < di ==> (#[trigger] ds[k]).data != det.data)
            &&& dia_tem_servico(ds[di].escala, det, exigir_titular)
        }
}

/// The loaded days after rewriting the service `det` addresses: the first
/// day of its date has exactly that one assignment rewritten and every other
/// day is untouched; when no such service stands, nothing moved.
#[verifier::opaque]
pub open spec fn dias_reescritos(
    antes: Seq<DiaGerado>,
    depois: Seq<DiaGerado>,
    det: DetalheServico,
    id: Seq<char>,
    nome: Seq<char>,
    punicao: bool,
    exigir_titular: bool,
) -> bool {
    if !servico_presente(antes, det, exigir_titular) {
        depois == antes
    } else {
        &&& depois.len() == antes.len()
        &&& exists|di: int|
            #![trigger antes[di]]
            {
                &&& 0 <= di < antes.len()
                &&& antes[di].data == det.data
                &&& (forall|k: int| 0 <= k < di ==> (#[trigger] antes[k]).data != det.data)
                &&& (forall|k: int|
                    0 <= k < antes.len() && k != di ==> #[trigger] depois[k] == antes[k])
                &&& depois[di].data == antes[di].data
                &&& dia_reescrito(antes[di].escala, depois[di].escala, det, id, nome, punicao)
            }
    }
}

/// The first standby place of `uid`.
#[verifier::loop_isolation(false)]
fn procurar_retem_idx(e: &EscalaDiaria, uid: &String) -> (r: Option<usize>)
    ensures
        match r {
            Some(i) => i < e.retem@.len() && e.retem@[i as int].user_id@ == uid@ && (forall|k: int|
                0 <= k < i ==> (#[trigger] e.retem@[k]).user_id@ != uid@),
            None => forall|k: int| 0 <= k < e.retem@.len() ==> (#[trigger] e.retem@[k]).user_id@ != uid@,
        },
{
    let mut ri: usize = 0;
    while ri < e.retem.len()
        invariant
            0 <= ri <= e.retem@.len(),
            forall|k: int| 0 <= k < ri ==> (#[trigger] e.retem@[k]).user_id@ != uid@,
        decreases e.retem@.len() - ri,
    {
        if e.retem[ri].user_id.eq(uid) {
            return Some(ri);
        }
        ri = ri + 1;
    }
    None
}

/// The first rostered post of the given name.
#[verifier::loop_isolation(false)]
fn procurar_posto_idx(e: &EscalaDiaria, nome: &String) -> (r: Option<usize>)
    ensures
        match r {
            Some(i) => i < e.escala@.len() && e.escala@[i as int].posto@ == nome@ && (forall|k: int|
                0 <= k < i ==> (#[trigger] e.escala@[k]).posto@ != nome@),
            None => forall|k: int| 0 <= k < e.escala@.len() ==> (#[trigger] e.escala@[k]).posto@ != nome@,
        },
{
    let mut pi: usize = 0;
    while pi < e.escala.len()
        invariant
            0 <= pi <= e.escala@.len(),
            forall|k: int| 0 <= k < pi ==> (#[trigger] e.escala@[k]).posto@ != nome@,
        decreases e.escala@.len() - pi,
    {
        if e.escala[pi].posto.eq(nome) {
            return Some(pi);
        }
        pi = pi + 1;
    }
    None
}

/// The first slot of the given label.
#[verifier::loop_isolation(false)]
fn procurar_horario_idx(p: &PostoEscalado, rotulo: &String) -> (r: Option<usize>)
    ensures
        match r {
            Some(i) => i < p.horarios@.len() && p.horarios@[i as int].horario@ == rotulo@ && (forall|
                k: int,
            |
                0 <= k < i ==> (#[trigger] p.horarios@[k]).horario@ != rotulo@),
            None => forall|k: int|
                0 <= k < p.horarios@.len() ==> (#[trigger] p.horarios@[k]).horario@ != rotulo@,
        },
{
    let mut h: usize = 0;
    while h < p.horarios.len()
        invariant
            0 <= h <= p.horarios@.len(),
            forall|k: int| 0 <= k < h ==> (#[trigger] p.horarios@[k]).horario@ != rotulo@,
        decreases p.horarios@.len() - h,
    {
        if p.horarios[h].horario.eq(rotulo) {
            return Some(h);
        }
        h = h + 1;
    }
    None
}

/// Rewrites the service addressed by `det` on this one day, exactly as
/// `dia_tem_servico`/`dia_reescrito` state; without a matching service
/// nothing moves at all.
#[verifier::spinoff_prover]
#[verifier::rlimit(100)]
fn substituir_no_dia(
    e: &mut EscalaDiaria,
    det: &DetalheServico,
    nova: Alocacao,
    exigir_titular: bool,
) -> (ok: bool)
    ensures
        ok == dia_tem_servico(*old(e), *det, exigir_titular),
        ok ==> dia_reescrito(*old(e), *final(e), *det, nova.user_id@, nova.nome@, nova.punicao),
        !ok ==> *final(e) == *old(e),
        final(e).tipo_dia == old(e).tipo_dia,
{
    let e_retem = poste_igual_retem(&det.posto);
    if e_retem {
        match procurar_retem_idx(e, &det.user_id) {
            Some(ri) => {
                let ghost rs0 = e.retem@;
                let ghost nova_v = nova;
                e.retem[ri] = nova;
                proof {
                    reveal(dia_tem_servico);
                    reveal(dia_reescrito);
                    assert(e.retem@ =~= rs0.update(ri as int, nova_v));
                    assert(dia_tem_servico(*old(e), *det, exigir_titular));
                }
                true
            },
            None => {
                proof {
                    reveal(dia_tem_servico);
                }
                false
            },
        }
    } else {
        let pi = match procurar_posto_idx(e, &det.posto) {
            Some(pi) => pi,
            None => {
                proof {
                    reveal(dia_tem_servico);
                    if dia_tem_servico(*e, *det, exigir_titular) {
                        let (pi2, h2) = choose|pi2: int, h2: int|
                            #![trigger e.escala@[pi2].horarios@[h2]]
                            {
                                &&& 0 <= pi2 < e.escala@.len()
                                &&& e.escala@[pi2].posto@ == det.posto@
                                &&& (forall|k: int|
                                    0 <= k < pi2 ==> (#[trigger] e.escala@[k]).posto@ != det.posto@)
                                &&& 0 <= h2 < e.escala@[pi2].horarios@.len()
                                &&& e.escala@[pi2].horarios@[h2].horario@ == det.horario@
                                &&& (forall|k: int|
                                    0 <= k < h2 ==> (#[trigger] e.escala@[pi2].horarios@[k]).horario@
                                        != det.horario@)
                                &&& (exigir_titular
                                    ==> e.escala@[pi2].horarios@[h2].alocacao.user_id@
                                    == det.user_id@)
                            };
                        assert(e.escala@[pi2].posto@ != det.posto@);
                    }
                }
                return false;
            },
        };
        let h = match procurar_horario_idx(&e.escala[pi], &det.horario) {
            Some(h) => h,
            None => {
                proof {
                    reveal(dia_tem_servico);
                    if dia_tem_servico(*e, *det, exigir_titular) {
                        let (pi2, h2) = choose|pi2: int, h2: int|
                            #![trigger e.escala@[pi2].horarios@[h2]]
                            {
                                &&& 0 <= pi2 < e.escala@.len()
                                &&& e.escala@[pi2].posto@ == det.posto@
                                &&& (forall|k: int|
                                    0 <= k < pi2 ==> (#[trigger] e.escala@[k]).posto@ != det.posto@)
                                &&& 0 <= h2 < e.escala@[pi2].horarios@.len()
                                &&& e.escala@[pi2].horarios@[h2].horario@ == det.horario@
                                &&& (forall|k: int|
                                    0 <= k < h2 ==> (#[trigger] e.escala@[pi2].horarios@[k]).horario@
                                        != det.horario@)
                                &&& (exigir_titular
                                    ==> e.escala@[pi2].horarios@[h2].alocacao.user_id@
                                    == det.user_id@)
                            };
                        if pi2 < pi as int {
                            assert(e.escala@[pi2].posto@ != det.posto@);
                        }
                        if pi2 > pi as int {
                            assert(e.escala@[pi as int].posto@ != det.posto@);
                        }
                        assert(pi2 == pi as int);
                        assert(e.escala@[pi as int].horarios@[h2].horario@ != det.horario@);
                    }
                }
                return false;
            },
        };
        if exigir_titular && !e.escala[pi].horarios[h].alocacao.user_id.eq(&det.user_id) {
            proof {
                reveal(dia_tem_servico);
                if dia_tem_servico(*e, *det, exigir_titular) {
                    let (pi2, h2) = choose|pi2: int, h2: int|
                        #![trigger e.escala@[pi2].horarios@[h2]]
                        {
                            &&& 0 <= pi2 < e.escala@.len()
                            &&& e.escala@[pi2].posto@ == det.posto@
                            &&& (forall|k: int|
                                0 <= k < pi2 ==> (#[trigger] e.escala@[k]).posto@ != det.posto@)
                            &&& 0 <= h2 < e.escala@[pi2].horarios@.len()
                            &&& e.escala@[pi2].horarios@[h2].horario@ == det.horario@
                            &&& (forall|k: int|
                                0 <= k < h2 ==> (#[trigger] e.escala@[pi2].horarios@[k]).horario@
                                    != det.horario@)
                            &&& (exigir_titular ==> e.escala@[pi2].horarios@[h2].alocacao.user_id@
                                == det.user_id@)
                        };
                    if pi2 < pi as int {
                        assert(e.escala@[pi2].posto@ != det.posto@);
                    }
                    if pi2 > pi as int {
                        assert(e.escala@[pi as int].posto@ != det.posto@);
                    }
                    assert(pi2 == pi as int);
                    if h2 < h as int {
                        assert(e.escala@[pi as int].horarios@[h2].horario@ != det.horario@);
                    }
                    if h2 > h as int {
                        assert(e.escala@[pi as int].horarios@[h as int].horario@ != det.horario@);
                    }
                    assert(h2 == h as int);
                    assert(false);
                }
            }
            return false;
        }
        let ghost hs0 = e.escala@[pi as int].horarios@;
        let ghost nova_v = nova;
        e.escala[pi].horarios[h].alocacao = nova;
        proof {
            reveal(dia_tem_servico);
            reveal(dia_reescrito);
            assert(e.escala@[pi as int].horarios@ =~= hs0.update(
                h as int,
                AlocacaoHorario { horario: hs0[h as int].horario, alocacao: nova_v },
            ));
            assert(dia_tem_servico(*old(e), *det, exigir_titular));
            assert(dia_reescrito(
                *old(e),
                *e,
                *det,
                nova_v.user_id@,
                nova_v.nome@,
                nova_v.punicao,
            ));
        }
        true
    }
}

/// Rewrites the service addressed by `det` among the loaded days, exactly
/// as `servico_presente`/`dias_reescritos` state; without a matching service
/// nothing moves.
#[verifier::spinoff_prover]
#[verifier::rlimit(100)]
pub fn aplicar_substituicao(
    dias: &mut Vec<DiaGerado>,
    det: &DetalheServico,
    nova: Alocacao,
    exigir_titular: bool,
) -> (ok: bool)
    ensures
        ok == servico_presente(old(dias)@, *det, exigir_titular),
        dias_reescritos(
            old(dias)@,
            final(dias)@,
            *det,
            nova.user_id@,
            nova.nome@,
            nova.punicao,
            exigir_titular,
        ),
        !ok ==> final(dias)@ == old(dias)@,
        final(dias)@.len() == old(dias)@.len(),
        forall|k: int|
            0 <= k < old(dias)@.len() ==> (#[trigger] final(dias)@[k]).data == old(dias)@[k].data
                && final(dias)@[k].escala.tipo_dia == old(dias)@[k].escala.tipo_dia,
{
    let di = match procurar_dia(dias, det.data) {
        Some(di) => di,
        None => {
            proof {
                reveal(servico_presente);
                reveal(dias_reescritos);
                if servico_presente(dias@, *det, exigir_titular) {
                    let di2 = choose|di2: int|
                        #![trigger dias@[di2]]
                        {
                            &&& 0 <= di2 < dias@.len()
                            &&& dias@[di2].data == det.data
                            &&& (forall|k: int|
                                0 <= k < di2 ==> (#[trigger] dias@[k]).data != det.data)
                            &&& dia_tem_servico(dias@[di2].escala, *det, exigir_titular)
                        };
                    assert(dias@[di2].data != det.data);
                }
            }
            return false;
        },
    };
    let ghost nova_v = nova;
    let ok = substituir_no_dia(&mut dias[di].escala, det, nova, exigir_titular);
    proof {
        reveal(servico_presente);
        reveal(dias_reescritos);
        if !ok {
            assert(dias@ =~= old(dias)@);
            if servico_presente(old(dias)@, *det, exigir_titular) {
                let di2 = choose|di2: int|
                    #![trigger old(dias)@[di2]]
                    {
                        &&& 0 <= di2 < old(dias)@.len()
                        &&& old(dias)@[di2].data == det.data
                        &&& (forall|k: int|
                            0 <= k < di2 ==> (#[trigger] old(dias)@[k]).data != det.data)
                        &&& dia_tem_servico(old(dias)@[di2].escala, *det, exigir_titular)
                    };
                if di2 < di as int {
                    assert(old(dias)@[di2].data != det.data);
                }
                if di2 > di as int {
                    assert(old(dias)@[di as int].data != det.data);
                }
                assert(di2 == di as int);
                assert(false);
            }
        } else {
            assert(servico_presente(old(dias)@, *det, exigir_titular)) by {
                assert(0 <= di < old(dias)@.len() && old(dias)@[di as int].data == det.data && (
                forall|k: int| 0 <= k < di ==> (#[trigger] old(dias)@[k]).data != det.data)
                    && dia_tem_servico(old(dias)@[di as int].escala, *det, exigir_titular));
            }
            assert(0 <= di < old(dias)@.len() && old(dias)@[di as int].data == det.data && (forall|
                k: int,
            |
                0 <= k < di ==> (#[trigger] old(dias)@[k]).data != det.data) && (forall|k: int|
                0 <= k < old(dias)@.len() && k != di ==> #[trigger] dias@[k] == old(dias)@[k])
                && dias@[di as int].data == old(dias)@[di as int].data && dia_reescrito(
                old(dias)@[di as int].escala,
                dias@[di as int].escala,
                *det,
                nova_v.user_id@,
                nova_v.nome@,
                nova_v.punicao,
            ));
        }
        assert forall|k: int|
            0 <= k < old(dias)@.len() implies (#[trigger] dias@[k]).data == old(dias)@[k].data
            && dias@[k].escala.tipo_dia == old(dias)@[k].escala.tipo_dia by {
            if k != di as int {
                assert(dias@[k] == old(dias)@[k]);
            } else {
                assert(dias@[di as int].data == old(dias)@[di as int].data);
                assert(dias@[di as int].escala.tipo_dia == old(
                    dias,
                )@[di as int].escala.tipo_dia);
            }
        }
    }
    ok
}

/// Whether a post name is the standby pseudo-post.
fn poste_igual_retem(s: &String) -> (r: bool)
    ensures
        r == (s@ == "RETEM"@),
{
    let alvo = String::from_str("RETEM");
    s.eq(&alvo)
}

/// Why an obligatory substitution was refused: an unknown or ineligible
/// substitute, an unavailability, a same-day or adjacent-day conflict, a
/// date with no published roster, or a service that is not on it.  On a
/// refusal nothing is changed.
#[derive(Clone, Copy, Debug, PartialEq, Eq, Structural)]
pub enum ErroTroca {
    SubstitutoDesconhecido,
    TurmaNaoPermitida,
    GeneroIncompativel,
    FuncaoEmFalta,
    Indisponivel,
    ConflitoMesmoDia,
    ConflitoDiaAnterior,
    ConflitoDiaSeguinte,
    DiaNaoEncontrado,
    ServicoNaoEncontrado,
}

/// A field-wise copy of a service address.
pub fn clonar_detalhe(d: &DetalheServico) -> (r: DetalheServico)
    ensures
        r == *d,
{
    DetalheServico {
        data: d.data,
        posto: d.posto.clone(),
        horario: d.horario.clone(),
        user_id: d.user_id.clone(),
    }
}

/// The display name of the person with the given id, or the placeholder for
/// an id the roster does not know.
fn nome_de(utilizadores: &Vec<User>, id: &String) -> (r: String)
    ensures
        r@ == nome_alvo_spec(utilizadores@, id@),
{
    match procurar_user(utilizadores, id) {
        Some(j) => {
            proof {
                lema_nome_alvo(utilizadores@, id@, j as int);
            }
            utilizadores[j].name.clone()
        },
        None => {
            proof {
                reveal(nome_alvo_spec);
            }
            String::from_str("N/A")
        },
    }
}

/// The person at the first position with the given id is unique.
proof fn lema_primeiro_user_unico(us: Seq<User>, id: Seq<char>, j: int)
    requires
        0 <= j < us.len(),
        us[j].id@ == id,
        forall|k: int| 0 <= k < j ==> (#[trigger] us[k]).id@ != id,
    ensures
        forall|j2: int|
            #![trigger us[j2]]
            0 <= j2 < us.len() && us[j2].id@ == id && (forall|k: int|
                0 <= k < j2 ==> (#[trigger] us[k]).id@ != id) ==> j2 == j,
{
    assert forall|j2: int|
        #![trigger us[j2]]
        0 <= j2 < us.len() && us[j2].id@ == id && (forall|k: int|
            0 <= k < j2 ==> (#[trigger] us[k]).id@ != id) implies j2 == j by {
        if j2 < j {
            assert(us[j2].id@ != id);
        }
        if j2 > j {
            assert(us[j].id@ != id);
        }
    }
}

/// The display name recorded for an id: the first person who carries it, or
/// the placeholder for an unknown id.
#[verifier::opaque]
pub open spec fn nome_alvo_spec(us: Seq<User>, id: Seq<char>) -> Seq<char> {
    if exists|j: int| 0 <= j < us.len() && (#[trigger] us[j]).id@ == id {
        let j = choose|j: int|
            #![trigger us[j]]
            0 <= j < us.len() && us[j].id@ == id && (forall|k: int|
                0 <= k < j ==> (#[trigger] us[k]).id@ != id);
        us[j].name@
    } else {
        "N/A"@
    }
}

/// The first index with a given id also witnesses the choose above.
proof fn lema_nome_alvo(us: Seq<User>, id: Seq<char>, j: int)
    requires
        0 <= j < us.len(),
        us[j].id@ == id,
        forall|k: int| 0 <= k < j ==> (#[trigger] us[k]).id@ != id,
    ensures
        nome_alvo_spec(us, id) == us[j].name@,
{
    reveal(nome_alvo_spec);
    assert(exists|j2: int| 0 <= j2 < us.len() && (#[trigger] us[j2]).id@ == id);
    let w = choose|w: int|
        #![trigger us[w]]
        0 <= w < us.len() && us[w].id@ == id && (forall|k: int|
            0 <= k < w ==> (#[trigger] us[k]).id@ != id);
    lema_primeiro_user_unico(us, id, j);
}

/// The eligibility of a substitute against a catalogued post: class year,
/// gender and exclusive role, in that order.
pub open spec fn checagem_posto(sub: User, p: Posto) -> Result<(), ErroTroca> {
    if !p.turmas_permitidas@.contains(sub.ano) {
        Err(ErroTroca::TurmaNaoPermitida)
    } else if !genero_compativel(p.genero, sub.genero) {
        Err(ErroTroca::GeneroIncompativel)
    } else if !(match p.funcao_exclusiva {
        Some(f) => vistas(sub.roles@).contains(f@),
        None => true,
    }) {
        Err(ErroTroca::FuncaoEmFalta)
    } else {
        Ok(())
    }
}

/// The catalogue verdict on a substitute: the checks of the first catalogued
/// post of the addressed name; the standby pseudo-post and a name the
/// catalogue does not know have no post-bound constraints.
#[verifier::opaque]
pub open spec fn checagem_catalogo(
    postos: Seq<Posto>,
    original: DetalheServico,
    sub: User,
) -> Result<(), ErroTroca> {
    if original.posto@ == "RETEM"@ {
        Ok(())
    } else if exists|p: int| 0 <= p < postos.len() && (#[trigger] postos[p]).nome@ == original.posto@ {
        let p = choose|p: int|
            #![trigger postos[p]]
            0 <= p < postos.len() && postos[p].nome@ == original.posto@ && (forall|k: int|
                0 <= k < p ==> (#[trigger] postos[k]).nome@ != original.posto@);
        checagem_posto(sub, postos[p])
    } else {
        Ok(())
    }
}

/// The agenda verdict on a substitute, short of the service itself:
/// unavailability on the date, the three fatigue conflicts, then whether the
/// date has a published roster at all.
#[verifier::opaque]
pub open spec fn checagem_previa(
    ds: Seq<DiaGerado>,
    indis: Seq<Indisponibilidade>,
    original: DetalheServico,
    sub: User,
) -> Result<(), ErroTroca> {
    if indisponivel_em(indis, sub.id@, original.data) {
        Err(ErroTroca::Indisponivel)
    } else if conflito_em(ds, sub.id@, original.data) {
        Err(ErroTroca::ConflitoMesmoDia)
    } else if conflito_em(ds, sub.id@, (original.data - 1) as i64) {
        Err(ErroTroca::ConflitoDiaAnterior)
    } else if conflito_em(ds, sub.id@, (original.data + 1) as i64) {
        Err(ErroTroca::ConflitoDiaSeguinte)
    } else if forall|k: int| 0 <= k < ds.len() ==> (#[trigger] ds[k]).data != original.data {
        Err(ErroTroca::DiaNaoEncontrado)
    } else {
        Ok(())
    }
}

/// The first of two verdicts that refuses, or the second.
pub open spec fn encadeia(a: Result<(), ErroTroca>, b: Result<(), ErroTroca>) -> Result<
    (),
    ErroTroca,
> {
    if a is Err {
        a
    } else {
        b
    }
}

/// Whether anyone carries the id.
pub open spec fn existe_titular(us: Seq<User>, id: Seq<char>) -> bool {
    exists|j: int| 0 <= j < us.len() && (#[trigger] us[j]).id@ == id
}

/// The first person carrying the id.
pub open spec fn substituto_spec(us: Seq<User>, id: Seq<char>) -> User {
    let j = choose|j: int|
        #![trigger us[j]]
        0 <= j < us.len() && us[j].id@ == id && (forall|k: int|
            0 <= k < j ==> (#[trigger] us[k]).id@ != id);
    us[j]
}

/// The first index with a given id also witnesses the choices above.
proof fn lema_substituto(us: Seq<User>, id: Seq<char>, j: int)
    requires
        0 <= j < us.len(),
        us[j].id@ == id,
        forall|k: int| 0 <= k < j ==> (#[trigger] us[k]).id@ != id,
    ensures
        existe_titular(us, id),
        substituto_spec(us, id) == us[j],
{
    assert(existe_titular(us, id));
    let w = choose|w: int|
        #![trigger us[w]]
        0 <= w < us.len() && us[w].id@ == id && (forall|k: int|
            0 <= k < w ==> (#[trigger] us[k]).id@ != id);
    lema_primeiro_user_unico(us, id, j);
}

/// The published days after an approved permutation of the trade `t`: the
/// requester's service came to hold the target person, then the target's
/// service came to hold the requester, both marked as traded.
#[verifier::opaque]
pub open spec fn efeito_permuta(
    antes: Seq<DiaGerado>,
    depois: Seq<DiaGerado>,
    us: Seq<User>,
    t: Troca,
) -> bool {
    exists|meio: Seq<DiaGerado>|
        #![trigger dias_reescritos(
            antes,
            meio,
            t.requerente,
            t.alvo.user_id@,
            nome_alvo_spec(us, t.alvo.user_id@) + " (TR)"@,
            false,
            false,
        )]
        dias_reescritos(
            antes,
            meio,
            t.requerente,
            t.alvo.user_id@,
            nome_alvo_spec(us, t.alvo.user_id@) + " (TR)"@,
            false,
            false,
        ) && dias_reescritos(
            meio,
            depois,
            t.alvo,
            t.requerente.user_id@,
            nome_alvo_spec(us, t.requerente.user_id@) + " (TR)"@,
            false,
            false,
        )
}

/// The published days and the ledger after an approved coverage of the
/// trade `t`: the target's service came to hold the requester, marked as
/// traded, and when the covered day is loaded the target owes the requester
/// one service of that day's category; an unloaded day changes nothing.
#[verifier::opaque]
pub open spec fn efeito_cobertura(
    dias_antes: Seq<DiaGerado>,
    dias_depois: Seq<DiaGerado>,
    divs_antes: Seq<RegistoDividas>,
    divs_depois: Seq<RegistoDividas>,
    us: Seq<User>,
    t: Troca,
) -> bool {
    &&& dias_reescritos(
        dias_antes,
        dias_depois,
        t.alvo,
        t.requerente.user_id@,
        nome_alvo_spec(us, t.requerente.user_id@) + " (TR)"@,
        false,
        false,
    )
    &&& (forall|di: int|
        #![trigger dias_antes[di]]
        0 <= di < dias_antes.len() && dias_antes[di].data == t.alvo.data && (forall|k: int|
            0 <= k < di ==> (#[trigger] dias_antes[k]).data != t.alvo.data) ==> {
            &&& dividas_de(divs_depois, t.alvo.user_id@) == dividas_de(
                divs_antes,
                t.alvo.user_id@,
            ).push(Divida { credor: t.requerente.user_id, tipo_divida: dias_antes[di].escala.tipo_dia })
            &&& (forall|outro: Seq<char>|
                outro != t.alvo.user_id@ ==> #[trigger] dividas_de(divs_depois, outro)
                    == dividas_de(divs_antes, outro))
        })
    &&& ((forall|di: int|
        0 <= di < dias_antes.len() ==> (#[trigger] dias_antes[di]).data != t.alvo.data)
        ==> divs_depois == divs_antes && dias_depois == dias_antes)
}

/// Applies an approved permutation to the published days: first the
/// requester's service comes to hold the target person, then the target's
/// service comes to hold the requester, both marked as traded.
#[verifier::spinoff_prover]
#[verifier::rlimit(100)]
fn aplicar_permuta(
    utilizadores: &Vec<User>,
    dias: &mut Vec<DiaGerado>,
    req: &DetalheServico,
    alvo: &DetalheServico,
    t: Ghost<Troca>,
)
    requires
        t@.requerente == *req,
        t@.alvo == *alvo,
    ensures
        final(dias)@.len() == old(dias)@.len(),
        forall|k: int|
            0 <= k < old(dias)@.len() ==> (#[trigger] final(dias)@[k]).data == old(dias)@[k].data
                && final(dias)@[k].escala.tipo_dia == old(dias)@[k].escala.tipo_dia,
        efeito_permuta(old(dias)@, final(dias)@, utilizadores@, t@),
{
    let aloc_no_req = Alocacao {
        user_id: alvo.user_id.clone(),
        nome: com_sufixo(&nome_de(utilizadores, &alvo.user_id), " (TR)"),
        punicao: false,
    };
    let aloc_no_alvo = Alocacao {
        user_id: req.user_id.clone(),
        nome: com_sufixo(&nome_de(utilizadores, &req.user_id), " (TR)"),
        punicao: false,
    };
    aplicar_substituicao(dias, req, aloc_no_req, false);
    let ghost meio = dias@;
    aplicar_substituicao(dias, alvo, aloc_no_alvo, false);
    proof {
        reveal(efeito_permuta);
        assert(dias_reescritos(
            old(dias)@,
            meio,
            t@.requerente,
            t@.alvo.user_id@,
            nome_alvo_spec(utilizadores@, t@.alvo.user_id@) + " (TR)"@,
            false,
            false,
        ));
        assert(dias_reescritos(
            meio,
            dias@,
            t@.alvo,
            t@.requerente.user_id@,
            nome_alvo_spec(utilizadores@, t@.requerente.user_id@) + " (TR)"@,
            false,
            false,
        ));
    }
}

/// Applies an approved coverage to the published days and ledger: the
/// target's service comes to hold the requester, marked as traded, and when
/// the covered day is loaded the target now owes the requester one service
/// of that day's category.
#[verifier::spinoff_prover]
#[verifier::rlimit(100)]
fn aplicar_cobertura(
    utilizadores: &Vec<User>,
    dias: &mut Vec<DiaGerado>,
    dividas: &mut DividasAtivas,
    req: &DetalheServico,
    alvo: &DetalheServico,
    t: Ghost<Troca>,
)
    requires
        t@.requerente == *req,
        t@.alvo == *alvo,
    ensures
        final(dias)@.len() == old(dias)@.len(),
        forall|k: int|
            0 <= k < old(dias)@.len() ==> (#[trigger] final(dias)@[k]).data == old(dias)@[k].data
                && final(dias)@[k].escala.tipo_dia == old(dias)@[k].escala.tipo_dia,
        efeito_cobertura(
            old(dias)@,
            final(dias)@,
            old(dividas).registos@,
            final(dividas).registos@,
            utilizadores@,
            t@,
        ),
{
    match procurar_dia(dias, alvo.data) {
        Some(di) => {
            proof {
                assert forall|d2: int|
                    #![trigger old(dias)@[d2]]
                    0 <= d2 < old(dias)@.len() && old(dias)@[d2].data == alvo.data && (forall|
                        k: int,
                    |
                        0 <= k < d2 ==> (#[trigger] old(dias)@[k]).data != alvo.data) implies d2
                    == di as int by {
                    if d2 < di as int {
                        assert(old(dias)@[d2].data != alvo.data);
                    }
                    if d2 > di as int {
                        assert(old(dias)@[di as int].data != alvo.data);
                    }
                }
            }
            let tipo_dia = dias[di].escala.tipo_dia;
            let nova = Alocacao {
                user_id: req.user_id.clone(),
                nome: com_sufixo(&nome_de(utilizadores, &req.user_id), " (TR)"),
                punicao: false,
            };
            aplicar_substituicao(dias, alvo, nova, false);
            dividas.adicionar(
                &alvo.user_id,
                Divida { credor: req.user_id.clone(), tipo_divida: tipo_dia },
            );
            proof {
                reveal(efeito_cobertura);
            }
        },
        None => {
            proof {
                reveal(efeito_cobertura);
                reveal(servico_presente);
                reveal(dias_reescritos);
                if servico_presente(dias@, *alvo, false) {
                    let di2 = choose|di2: int|
                        #![trigger dias@[di2]]
                        {
                            &&& 0 <= di2 < dias@.len()
                            &&& dias@[di2].data == alvo.data
                            &&& (forall|k: int|
                                0 <= k < di2 ==> (#[trigger] dias@[k]).data != alvo.data)
                            &&& dia_tem_servico(dias@[di2].escala, *alvo, false)
                        };
                    assert(dias@[di2].data != alvo.data);
                }
            }
        },
    }
}

/// The admin's decision on a target-accepted trade, §4.6: only a
/// pending-admin request moves, and only that one record; refusal rejects
/// it; approval rewrites the published slots — both services for a
/// permutation, the target's for a coverage — marking the new holders with
/// the trade marker, and a coverage records the debt of the original target
/// towards the requester, in the covered day's category.
#[verifier::spinoff_prover]
#[verifier::rlimit(100)]
pub fn aprovar_troca(
    trocas: &mut Vec<Troca>,
    troca_id: &String,
    aprovar: bool,
    utilizadores: &Vec<User>,
    dias: &mut Vec<DiaGerado>,
    dividas: &mut DividasAtivas,
)
    ensures
        trocas_avancam(old(trocas)@, final(trocas)@),
        final(dias)@.len() == old(dias)@.len(),
        forall|k: int|
            0 <= k < old(dias)@.len() ==> (#[trigger] final(dias)@[k]).data == old(dias)@[k].data
                && final(dias)@[k].escala.tipo_dia == old(dias)@[k].escala.tipo_dia,
        (forall|k: int| 0 <= k < old(trocas)@.len() ==> (#[trigger] old(trocas)@[k]).id@ != troca_id@)
            ==> final(trocas)@ == old(trocas)@ && final(dias)@ == old(dias)@
            && final(dividas).registos@ == old(dividas).registos@,
        forall|i: int|
            #![trigger old(trocas)@[i]]
            0 <= i < old(trocas)@.len() && old(trocas)@[i].id@ == troca_id@ && (forall|k: int|
                0 <= k < i ==> (#[trigger] old(trocas)@[k]).id@ != troca_id@) ==> {
                let t = old(trocas)@[i];
                &&& (forall|k: int|
                    0 <= k < old(trocas)@.len() && k != i ==> #[trigger] final(trocas)@[k]
                        == old(trocas)@[k])
                &&& (!(t.status is PendenteAdmin) ==> final(trocas)@ == old(trocas)@ && final(dias)@
                    == old(dias)@ && final(dividas).registos@ == old(dividas).registos@)
                &&& (t.status is PendenteAdmin && !aprovar ==> final(trocas)@[i].status is Recusada
                    && final(dias)@ == old(dias)@ && final(dividas).registos@ == old(dividas).registos@)
                &&& (t.status is PendenteAdmin && aprovar ==> final(trocas)@[i].status is Aprovada)
                &&& (t.status is PendenteAdmin && aprovar && t.tipo is Permuta ==> final(dividas).registos@ == old(dividas).registos@ && efeito_permuta(
                    old(dias)@,
                    final(dias)@,
                    utilizadores@,
                    t,
                ))
                &&& (t.status is PendenteAdmin && aprovar && t.tipo is Cobertura
                    ==> efeito_cobertura(
                    old(dias)@,
                    final(dias)@,
                    old(dividas).registos@,
                    final(dividas).registos@,
                    utilizadores@,
                    t,
                ))
            },
{
    let i = match procurar_troca(trocas, troca_id) {
        Some(i) => i,
        None => {
            return ;
        },
    };
    proof {
        assert forall|i2: int|
            #![trigger old(trocas)@[i2]]
            0 <= i2 < old(trocas)@.len() && old(trocas)@[i2].id@ == troca_id@ && (forall|k: int|
                0 <= k < i2 ==> (#[trigger] old(trocas)@[k]).id@ != troca_id@) implies i2
            == i as int by {
            if i2 < i as int {
                assert(old(trocas)@[i2].id@ != troca_id@);
            }
            if i2 > i as int {
                assert(old(trocas)@[i as int].id@ != troca_id@);
            }
        }
    }
    if !matches!(trocas[i].status, StatusTroca::PendenteAdmin) {
        return ;
    }
    if !aprovar {
        trocas[i].status = StatusTroca::Recusada;
        return ;
    }
    trocas[i].status = StatusTroca::Aprovada;
    let tipo_troca = trocas[i].tipo;
    let req = clonar_detalhe(&trocas[i].requerente);
    let alvo = clonar_detalhe(&trocas[i].alvo);
    proof {
        assert(req == old(trocas)@[i as int].requerente);
        assert(alvo == old(trocas)@[i as int].alvo);
        assert(tipo_troca == old(trocas)@[i as int].tipo);
    }
    if matches!(tipo_troca, TipoTroca::Permuta) {
        aplicar_permuta(utilizadores, dias, &req, &alvo, Ghost(old(trocas)@[i as int]));
    } else {
        aplicar_cobertura(
            utilizadores,
            dias,
            dividas,
            &req,
            &alvo,
            Ghost(old(trocas)@[i as int]),
        );
    }
}

/// The §4.7 decision on an obligatory substitution: an unknown substitute is
/// refused; otherwise the catalogue checks, the agenda checks, and last the
/// presence of the addressed service, still held by the named person.
#[verifier::opaque]
pub open spec fn decisao_substituicao(
    us: Seq<User>,
    postos: Seq<Posto>,
    indis: Seq<Indisponibilidade>,
    ds: Seq<DiaGerado>,
    original: DetalheServico,
    substituto_id: Seq<char>,
) -> Result<(), ErroTroca> {
    if !existe_titular(us, substituto_id) {
        Err(ErroTroca::SubstitutoDesconhecido)
    } else {
        let sub = substituto_spec(us, substituto_id);
        let previa = encadeia(
            checagem_catalogo(postos, original, sub),
            checagem_previa(ds, indis, original, sub),
        );
        if previa is Err {
            previa
        } else if !servico_presente(ds, original, true) {
            Err(ErroTroca::ServicoNaoEncontrado)
        } else {
            Ok(())
        }
    }
}

/// The catalogue checks of a substitute, executed.
#[verifier::rlimit(100)]
fn checar_catalogo(postos: &Vec<Posto>, original: &DetalheServico, sub: &User) -> (r: Result<
    (),
    ErroTroca,
>)
    ensures
        r == checagem_catalogo(postos@, *original, *sub),
{
    proof {
        reveal(checagem_catalogo);
    }
    if poste_igual_retem(&original.posto) {
        return Ok(());
    }
    match procurar_posto_catalogo(postos, &original.posto) {
        Some(p) => {
            proof {
                lema_catalogo(postos@, original.posto@, p as int);
            }
            if !contem_u8(&postos[p].turmas_permitidas, sub.ano) {
                return Err(ErroTroca::TurmaNaoPermitida);
            }
            if !genero_ok(postos[p].genero, sub.genero) {
                return Err(ErroTroca::GeneroIncompativel);
            }
            let funcao_ok = match &postos[p].funcao_exclusiva {
                Some(f) => contem_str(&sub.roles, f),
                None => true,
            };
            if !funcao_ok {
                return Err(ErroTroca::FuncaoEmFalta);
            }
            Ok(())
        },
        None => {
            proof {
                if exists|p: int|
                    0 <= p < postos@.len() && (#[trigger] postos@[p]).nome@ == original.posto@ {
                    let w = choose|w: int|
                        0 <= w < postos@.len() && (#[trigger] postos@[w]).nome@ == original.posto@;
                    assert(postos@[w].nome@ != original.posto@);
                }
            }
            Ok(())
        },
    }
}

/// The agenda checks of a substitute short of the service itself, executed.
#[verifier::rlimit(100)]
fn checar_previa(
    dias: &Vec<DiaGerado>,
    indisponibilidades: &Vec<Indisponibilidade>,
    original: &DetalheServico,
    sub: &User,
) -> (r: Result<(), ErroTroca>)
    requires
        i64::MIN < original.data < i64::MAX,
    ensures
        r == checagem_previa(dias@, indisponibilidades@, *original, *sub),
{
    proof {
        reveal(checagem_previa);
    }
    if esta_indisponivel(indisponibilidades, &sub.id, original.data) {
        return Err(ErroTroca::Indisponivel);
    }
    let mut datas: Vec<i64> = Vec::new();
    datas.push(original.data);
    if verificar_conflito_escala(dias, &sub.id, &datas) {
        proof {
            assert(conflito_em(dias@, sub.id@, original.data));
        }
        return Err(ErroTroca::ConflitoMesmoDia);
    }
    proof {
        assert(!conflito_em(dias@, sub.id@, original.data)) by {
            assert(datas@[0] == original.data);
        }
    }
    let mut datas1: Vec<i64> = Vec::new();
    datas1.push(original.data - 1);
    if verificar_conflito_escala(dias, &sub.id, &datas1) {
        proof {
            assert(conflito_em(dias@, sub.id@, (original.data - 1) as i64));
        }
        return Err(ErroTroca::ConflitoDiaAnterior);
    }
    proof {
        assert(!conflito_em(dias@, sub.id@, (original.data - 1) as i64)) by {
            assert(datas1@[0] == original.data - 1);
        }
    }
    let mut datas2: Vec<i64> = Vec::new();
    datas2.push(original.data + 1);
    if verificar_conflito_escala(dias, &sub.id, &datas2) {
        proof {
            assert(conflito_em(dias@, sub.id@, (original.data + 1) as i64));
        }
        return Err(ErroTroca::ConflitoDiaSeguinte);
    }
    proof {
        assert(!conflito_em(dias@, sub.id@, (original.data + 1) as i64)) by {
            assert(datas2@[0] == original.data + 1);
        }
    }
    match procurar_dia(dias, original.data) {
        Some(_) => Ok(()),
        None => Err(ErroTroca::DiaNaoEncontrado),
    }
}

/// Evaluates a proposed substitute short of the service itself: who they
/// are, the catalogue checks and the agenda checks, refusing with the first
/// failing reason.
#[verifier::rlimit(100)]
fn avaliar_substituto(
    utilizadores: &Vec<User>,
    postos: &Vec<Posto>,
    indisponibilidades: &Vec<Indisponibilidade>,
    dias: &Vec<DiaGerado>,
    original: &DetalheServico,
    substituto_id: &String,
) -> (r: Result<usize, ErroTroca>)
    requires
        i64::MIN < original.data < i64::MAX,
    ensures
        match r {
            Ok(j) => {
                &&& j < utilizadores@.len()
                &&& existe_titular(utilizadores@, substituto_id@)
                &&& utilizadores@[j as int] == substituto_spec(utilizadores@, substituto_id@)
                &&& encadeia(
                    checagem_catalogo(postos@, *original, utilizadores@[j as int]),
                    checagem_previa(dias@, indisponibilidades@, *original, utilizadores@[j as int]),
                ) is Ok
            },
            Err(e) => {
                if !existe_titular(utilizadores@, substituto_id@) {
                    e is SubstitutoDesconhecido
                } else {
                    encadeia(
                        checagem_catalogo(
                            postos@,
                            *original,
                            substituto_spec(utilizadores@, substituto_id@),
                        ),
                        checagem_previa(
                            dias@,
                            indisponibilidades@,
                            *original,
                            substituto_spec(utilizadores@, substituto_id@),
                        ),
                    ) == Err::<(), ErroTroca>(e)
                }
            },
        },
{
    let sub = match procurar_user(utilizadores, substituto_id) {
        Some(j) => j,
        None => {
            proof {
                if existe_titular(utilizadores@, substituto_id@) {
                    let w = choose|w: int|
                        0 <= w < utilizadores@.len() && (#[trigger] utilizadores@[w]).id@
                            == substituto_id@;
                    assert(utilizadores@[w].id@ != substituto_id@);
                }
            }
            return Err(ErroTroca::SubstitutoDesconhecido);
        },
    };
    proof {
        lema_substituto(utilizadores@, substituto_id@, sub as int);
    }
    match checar_catalogo(postos, original, &utilizadores[sub]) {
        Ok(_) => {},
        Err(e) => {
            return Err(e);
        },
    }
    match checar_previa(dias, indisponibilidades, original, &utilizadores[sub]) {
        Ok(_) => Ok(sub),
        Err(e) => Err(e),
    }
}

/// The first catalogued post of a name witnesses the choice in the
/// catalogue verdict.
proof fn lema_catalogo(ps: Seq<Posto>, nome: Seq<char>, p: int)
    requires
        0 <= p < ps.len(),
        ps[p].nome@ == nome,
        forall|k: int| 0 <= k < p ==> (#[trigger] ps[k]).nome@ != nome,
    ensures
        exists|p2: int| 0 <= p2 < ps.len() && (#[trigger] ps[p2]).nome@ == nome,
        (choose|p2: int|
            #![trigger ps[p2]]
            0 <= p2 < ps.len() && ps[p2].nome@ == nome && (forall|k: int|
                0 <= k < p2 ==> (#[trigger] ps[k]).nome@ != nome)) == p,
{
    assert(exists|p2: int| 0 <= p2 < ps.len() && (#[trigger] ps[p2]).nome@ == nome);
    let w = choose|p2: int|
        #![trigger ps[p2]]
        0 <= p2 < ps.len() && ps[p2].nome@ == nome && (forall|k: int|
            0 <= k < p2 ==> (#[trigger] ps[k]).nome@ != nome);
    lema_primeiro_posto_unico(ps, nome, p);
}

/// An admin-forced reassignment, §4.7: the substitute must exist and pass
/// the eligibility filter — class year, gender and exclusive role of the
/// addressed post, no unavailability on the date, and no same-day or
/// adjacent-day commitment on the published rosters; on any refusal nothing
/// is changed and the specific reason is returned, exactly as
/// `decisao_substituicao` states.  On success the slot is rewritten to the
/// substitute with the substitution marker, and the original holder now owes
/// the substitute one service of the day's category.
#[verifier::spinoff_prover]
#[verifier::rlimit(100)]
pub fn troca_obrigatoria(
    original: &DetalheServico,
    substituto_id: &String,
    utilizadores: &Vec<User>,
    postos: &Vec<Posto>,
    indisponibilidades: &Vec<Indisponibilidade>,
    dias: &mut Vec<DiaGerado>,
    dividas: &mut DividasAtivas,
) -> (r: Result<(), ErroTroca>)
    requires
        i64::MIN < original.data < i64::MAX,
    ensures
        r == decisao_substituicao(
            utilizadores@,
            postos@,
            indisponibilidades@,
            old(dias)@,
            *original,
            substituto_id@,
        ),
        r is Err ==> final(dias)@ == old(dias)@ && final(dividas).registos@ == old(dividas).registos@,
        r is Ok ==> dias_reescritos(
            old(dias)@,
            final(dias)@,
            *original,
            substituto_spec(utilizadores@, substituto_id@).id@,
            substituto_spec(utilizadores@, substituto_id@).name@ + " (TO)"@,
            false,
            true,
        ),
        r is Ok ==> (forall|di: int|
            #![trigger old(dias)@[di]]
            0 <= di < old(dias)@.len() && old(dias)@[di].data == original.data && (forall|k: int|
                0 <= k < di ==> (#[trigger] old(dias)@[k]).data != original.data) ==> {
                &&& dividas_de(final(dividas).registos@, original.user_id@) == dividas_de(
                    old(dividas).registos@,
                    original.user_id@,
                ).push(
                    Divida {
                        credor: substituto_spec(utilizadores@, substituto_id@).id,
                        tipo_divida: old(dias)@[di].escala.tipo_dia,
                    },
                )
                &&& (forall|outro: Seq<char>|
                    outro != original.user_id@ ==> #[trigger] dividas_de(
                        final(dividas).registos@,
                        outro,
                    ) == dividas_de(old(dividas).registos@, outro))
            }),
{
    let sub = match avaliar_substituto(
        utilizadores,
        postos,
        indisponibilidades,
        dias,
        original,
        substituto_id,
    ) {
        Ok(j) => j,
        Err(e) => {
            proof {
                reveal(decisao_substituicao);
            }
            return Err(e);
        },
    };
    let di = match procurar_dia(dias, original.data) {
        Some(di) => di,
        None => {
            proof {
                reveal(decisao_substituicao);
                reveal(checagem_previa);
                assert(false);
            }
            return Err(ErroTroca::DiaNaoEncontrado);
        },
    };
    proof {
        assert forall|d2: int|
            #![trigger old(dias)@[d2]]
            0 <= d2 < old(dias)@.len() && old(dias)@[d2].data == original.data && (forall|k: int|
                0 <= k < d2 ==> (#[trigger] old(dias)@[k]).data != original.data) implies d2
            == di as int by {
            if d2 < di as int {
                assert(old(dias)@[d2].data != original.data);
            }
            if d2 > di as int {
                assert(old(dias)@[di as int].data != original.data);
            }
        }
    }
    let tipo_dia = dias[di].escala.tipo_dia;
    let nova = Alocacao {
        user_id: utilizadores[sub].id.clone(),
        nome: com_sufixo(&utilizadores[sub].name, " (TO)"),
        punicao: false,
    };
    if !aplicar_substituicao(dias, original, nova, true) {
        proof {
            reveal(decisao_substituicao);
        }
        return Err(ErroTroca::ServicoNaoEncontrado);
    }
    dividas.adicionar(
        &original.user_id,
        Divida { credor: utilizadores[sub].id.clone(), tipo_divida: tipo_dia },
    );
    proof {
        reveal(decisao_substituicao);
    }
    Ok(())
}

/// The first catalogued post of the given name.
#[verifier::loop_isolation(false)]
fn procurar_posto_catalogo(postos: &Vec<Posto>, nome: &String) -> (r: Option<usize>)
    ensures
        match r {
            Some(i) => i < postos@.len() && postos@[i as int].nome@ == nome@ && (forall|k: int|
                0 <= k < i ==> (#[trigger] postos@[k]).nome@ != nome@),
            None => forall|k: int| 0 <= k < postos@.len() ==> (#[trigger] postos@[k]).nome@ != nome@,
        },
{
    let mut i: usize = 0;
    while i < postos.len()
        invariant
            0 <= i <= postos@.len(),
            forall|k: int| 0 <= k < i ==> (#[trigger] postos@[k]).nome@ != nome@,
        decreases postos@.len() - i,
    {
        if postos[i].nome.eq(nome) {
            return Some(i);
        }
        i = i + 1;
    }
    None
}

/// The first catalogued post of a name is unique.
proof fn lema_primeiro_posto_unico(ps: Seq<Posto>, nome: Seq<char>, p: int)
    requires
        0 <= p < ps.len(),
        ps[p].nome@ == nome,
        forall|k: int| 0 <= k < p ==> (#[trigger] ps[k]).nome@ != nome,
    ensures
        forall|p2: int|
            #![trigger ps[p2]]
            0 <= p2 < ps.len() && ps[p2].nome@ == nome && (forall|k: int|
                0 <= k < p2 ==> (#[trigger] ps[k]).nome@ != nome) ==> p2 == p,
{
    assert forall|p2: int|
        #![trigger ps[p2]]
        0 <= p2 < ps.len() && ps[p2].nome@ == nome && (forall|k: int|
            0 <= k < p2 ==> (#[trigger] ps[k]).nome@ != nome) implies p2 == p by {
        if p2 < p {
            assert(ps[p2].nome@ != nome);
        }
        if p2 > p {
            assert(ps[p].nome@ != nome);
        }
    }
}

/// Unavailability of a person on a date, executed.
#[verifier::loop_isolation(false)]
pub fn esta_indisponivel(lista: &Vec<Indisponibilidade>, id: &String, data: i64) -> (r: bool)
    ensures
        r == indisponivel_em(lista@, id@, data),
{
    let mut k: usize = 0;
    while k < lista.len()
        invariant
            0 <= k <= lista@.len(),
            forall|k2: int|
                0 <= k2 < k ==> !((#[trigger] lista@[k2]).user_id@ == id@ && lista@[k2].data
                    == data),
        decreases lista@.len() - k,
    {
        if lista[k].user_id.eq(id) && lista[k].data == data {
            return true;
        }
        k = k + 1;
    }
    false
}

} // verus!
