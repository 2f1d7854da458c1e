//! The admin management operations around the scheduler: unavailability and
//! punishment upkeep, the punishment-post configuration, the trade window,
//! and promoting a pending period — plus the request records the surrounding
//! pages exchange.

use vstd::prelude::*;
use vstd::string::StringExecFns;
use crate::tipos::{Punicao, Indisponibilidade, ConfiguracaoEscala, EstadoEscala, Periodo};
use crate::escala::{esta_punido, id_punido};

verus! {

/// A login attempt.
#[derive(Clone, Debug)]
pub struct LoginForm {
    pub username: String,
    pub password: String,
}

/// A new dashboard notice.
#[derive(Clone, Debug)]
pub struct DashboardMessageForm {
    pub content: String,
}

/// One meal check-in click.
#[derive(Clone, Debug)]
pub struct CheckinAction {
    pub user_id: String,
    pub meal: String,
}

/// The broadcast answering a meal check-in.
#[derive(Clone, Debug)]
pub struct CheckinUpdate {
    pub user_id: String,
    pub meal: String,
    pub new_status: bool,
    pub marked_by: String,
    pub marked_at: String,
}

/// Which class year's presence board is asked for.
#[derive(Clone, Debug)]
pub struct PresenceQuery {
    pub turma: String,
}

/// One presence-board click: leave or return.
#[derive(Clone, Debug)]
pub struct PresenceSocketAction {
    pub user_id: String,
    pub action: String,
}

/// The broadcast answering a presence-board click.
#[derive(Clone, Debug)]
pub struct PresenceSocketUpdate {
    pub success: bool,
    pub message: String,
    pub user_id: String,
    pub esta_fora: bool,
    pub saida_info_html: String,
    pub retorno_info_html: String,
    pub stats: crate::apoio::PresenceStats,
}

/// A new forced-service quota.
#[derive(Clone, Debug)]
pub struct AdicionarPunicaoForm {
    pub user_id: String,
    pub total_a_cumprir: u32,
}

/// Lifting a forced-service quota.
#[derive(Clone, Debug)]
pub struct RemoverPunicaoForm {
    pub user_id: String,
}

/// A new unavailability.
#[derive(Clone, Debug)]
pub struct AdicionarIndisponibilidadeForm {
    pub user_id: String,
    pub data: i64,
    pub motivo: String,
}

/// Lifting an unavailability.
#[derive(Clone, Debug)]
pub struct RemoverIndisponibilidadeForm {
    pub user_id: String,
    pub data: i64,
}

/// An admin-forced reassignment request: the addressed service and the
/// substitute's id.
#[derive(Clone, Debug)]
pub struct TrocaObrigatoriaForm {
    pub original_service_json: String,
    pub substitute_user_id: String,
}

/// Opens a fresh quota for a person not already under one; a second quota
/// for the same person is ignored.
pub fn adicionar_punicao(punicoes: &mut Vec<Punicao>, form: &AdicionarPunicaoForm)
    ensures
        id_punido(old(punicoes)@, form.user_id@) ==> final(punicoes)@ == old(punicoes)@,
        !id_punido(old(punicoes)@, form.user_id@) ==> final(punicoes)@.len() == old(
            punicoes,
        )@.len() + 1 && (forall|k: int|
            0 <= k < old(punicoes)@.len() ==> final(punicoes)@[k] == old(punicoes)@[k]) && ({
            let nova = final(punicoes)@.last();
            nova.user_id@ == form.user_id@ && nova.total_a_cumprir == form.total_a_cumprir
                && nova.ja_cumpridos == 0
        }),
{
    if !esta_punido(punicoes, &form.user_id) {
        punicoes.push(
            Punicao {
                user_id: form.user_id.clone(),
                total_a_cumprir: form.total_a_cumprir,
                ja_cumpridos: 0,
            },
        );
    }
}

/// The punishment records that survive lifting someone's quotas: everyone
/// else's, in order.
pub open spec fn punicoes_filtradas(ps: Seq<Punicao>, id: Seq<char>) -> Seq<Punicao>
    decreases ps.len(),
{
    if ps.len() == 0 {
        Seq::empty()
    } else {
        punicoes_filtradas(ps.drop_last(), id) + (if ps.last().user_id@ == id {
            Seq::empty()
        } else {
            seq![ps.last()]
        })
    }
}

/// Lifts every quota of the person: the result is exactly the input with
/// that person's records removed, in order.
#[verifier::loop_isolation(false)]
pub fn remover_punicao(punicoes: &Vec<Punicao>, form: &RemoverPunicaoForm) -> (r: Vec<Punicao>)
    ensures
        r@ == punicoes_filtradas(punicoes@, form.user_id@),
{
    let mut r: Vec<Punicao> = Vec::new();
    let mut j: usize = 0;
    while j < punicoes.len()
        invariant
            0 <= j <= punicoes@.len(),
            r@ == punicoes_filtradas(punicoes@.take(j as int), form.user_id@),
        decreases punicoes@.len() - j,
    {
        let ghost antes = r@;
        if !punicoes[j].user_id.eq(&form.user_id) {
            r.push(
                Punicao {
                    user_id: punicoes[j].user_id.clone(),
                    total_a_cumprir: punicoes[j].total_a_cumprir,
                    ja_cumpridos: punicoes[j].ja_cumpridos,
                },
            );
        }
        proof {
            assert(punicoes@.take(j + 1).drop_last() =~= punicoes@.take(j as int));
            assert(punicoes@.take(j + 1).last() == punicoes@[j as int]);
            if punicoes@[j as int].user_id@ == form.user_id@ {
                assert(r@ =~= punicoes_filtradas(punicoes@.take(j + 1), form.user_id@));
            } else {
                assert(r@ =~= antes.push(punicoes@[j as int]));
                assert(antes + seq![punicoes@[j as int]] =~= antes.push(punicoes@[j as int]));
                assert(r@ =~= punicoes_filtradas(punicoes@.take(j + 1), form.user_id@));
            }
        }
        j = j + 1;
    }
    proof {
        assert(punicoes@.take(punicoes@.len() as int) =~= punicoes@);
    }
    r
}

/// Whether someone is already marked unavailable on a date.
pub open spec fn indisponivel_em(l: Seq<Indisponibilidade>, id: Seq<char>, data: i64) -> bool {
    exists|k: int|
        0 <= k < l.len() && (#[trigger] l[k]).user_id@ == id && l[k].data == data
}

/// Marks a person unavailable on a date; an existing mark for the same
/// person and date is kept as it is.
#[verifier::loop_isolation(false)]
pub fn adicionar_indisponibilidade(
    lista: &mut Vec<Indisponibilidade>,
    form: AdicionarIndisponibilidadeForm,
)
    ensures
        indisponivel_em(old(lista)@, form.user_id@, form.data) ==> final(lista)@ == old(lista)@,
        !indisponivel_em(old(lista)@, form.user_id@, form.data) ==> final(lista)@.len() == old(
            lista,
        )@.len() + 1 && (forall|k: int|
            0 <= k < old(lista)@.len() ==> final(lista)@[k] == old(lista)@[k]) && ({
            let nova = final(lista)@.last();
            nova.user_id@ == form.user_id@ && nova.data == form.data && nova.motivo@
                == form.motivo@
        }),
{
    let mut j: usize = 0;
    while j < lista.len()
        invariant
            lista@ == old(lista)@,
            0 <= j <= lista@.len(),
            forall|k: int|
                0 <= k < j ==> !((#[trigger] lista@[k]).user_id@ == form.user_id@ && lista@[k].data
                    == form.data),
        decreases lista@.len() - j,
    {
        if lista[j].user_id.eq(&form.user_id) && lista[j].data == form.data {
            return ;
        }
        j = j + 1;
    }
    lista.push(
        Indisponibilidade { user_id: form.user_id, data: form.data, motivo: form.motivo },
    );
}

/// The unavailability marks that survive lifting one: every mark of another
/// person or another date, in order.
pub open spec fn marcas_filtradas(l: Seq<Indisponibilidade>, id: Seq<char>, data: i64) -> Seq<
    Indisponibilidade,
>
    decreases l.len(),
{
    if l.len() == 0 {
        Seq::empty()
    } else {
        marcas_filtradas(l.drop_last(), id, data) + (if l.last().user_id@ == id && l.last().data
            == data {
            Seq::empty()
        } else {
            seq![l.last()]
        })
    }
}

/// Lifts the mark of the person on the date: the result is exactly the input
/// with that mark removed, in order.
#[verifier::loop_isolation(false)]
pub fn remover_indisponibilidade(
    lista: &Vec<Indisponibilidade>,
    form: &RemoverIndisponibilidadeForm,
) -> (r: Vec<Indisponibilidade>)
    ensures
        r@ == marcas_filtradas(lista@, form.user_id@, form.data),
{
    let mut r: Vec<Indisponibilidade> = Vec::new();
    let mut j: usize = 0;
    while j < lista.len()
        invariant
            0 <= j <= lista@.len(),
            r@ == marcas_filtradas(lista@.take(j as int), form.user_id@, form.data),
        decreases lista@.len() - j,
    {
        let ghost antes = r@;
        if !(lista[j].user_id.eq(&form.user_id) && lista[j].data == form.data) {
            r.push(
                Indisponibilidade {
                    user_id: lista[j].user_id.clone(),
                    data: lista[j].data,
                    motivo: lista[j].motivo.clone(),
                },
            );
        }
        proof {
            assert(lista@.take(j + 1).drop_last() =~= lista@.take(j as int));
            assert(lista@.take(j + 1).last() == lista@[j as int]);
            if lista@[j as int].user_id@ == form.user_id@ && lista@[j as int].data == form.data {
                assert(r@ =~= marcas_filtradas(lista@.take(j + 1), form.user_id@, form.data));
            } else {
                assert(r@ =~= antes.push(lista@[j as int]));
                assert(antes + seq![lista@[j as int]] =~= antes.push(lista@[j as int]));
                assert(r@ =~= marcas_filtradas(lista@.take(j + 1), form.user_id@, form.data));
            }
        }
        j = j + 1;
    }
    proof {
        assert(lista@.take(lista@.len() as int) =~= lista@);
    }
    r
}

/// The values of the pairs keyed `postos`, in order: what the admin form
/// selected as punishment-eligible posts.
pub open spec fn valores_postos(ps: Seq<(String, String)>) -> Seq<Seq<char>>
    decreases ps.len(),
{
    if ps.len() == 0 {
        Seq::empty()
    } else {
        valores_postos(ps.drop_last()) + (if ps.last().0@ == "postos"@ {
            seq![ps.last().1@]
        } else {
            Seq::empty()
        })
    }
}

/// The punishment-post configuration gathered from the admin form: exactly
/// the value of every pair keyed `postos`, in order.
#[verifier::loop_isolation(false)]
pub fn salvar_configuracao_punicao(pares: Vec<(String, String)>) -> (r: ConfiguracaoEscala)
    ensures
        crate::texto::vistas(r.postos_punicao@) == valores_postos(pares@),
{
    let chave = String::from_str("postos");
    let mut postos: Vec<String> = Vec::new();
    let mut j: usize = 0;
    while j < pares.len()
        invariant
            0 <= j <= pares@.len(),
            chave@ == "postos"@,
            crate::texto::vistas(postos@) == valores_postos(pares@.take(j as int)),
        decreases pares@.len() - j,
    {
        let ghost antes = postos@;
        if pares[j].0.eq(&chave) {
            postos.push(pares[j].1.clone());
        }
        proof {
            assert(pares@.take(j + 1).drop_last() =~= pares@.take(j as int));
            assert(pares@.take(j + 1).last() == pares@[j as int]);
            if pares@[j as int].0@ == "postos"@ {
                crate::texto::lema_vistas_push(antes, pares@[j as int].1);
                assert(crate::texto::vistas(postos@) =~= valores_postos(pares@.take(j + 1)));
            } else {
                assert(valores_postos(pares@.take(j + 1)) =~= valores_postos(
                    pares@.take(j as int),
                ));
            }
        }
        j = j + 1;
    }
    proof {
        assert(pares@.take(pares@.len() as int) =~= pares@);
    }
    ConfiguracaoEscala { postos_punicao: postos }
}

/// Opens or closes the trade window for the pending period; the periods do
/// not move.
pub fn definir_status_trocas(estado: &mut EstadoEscala, abrir: bool)
    ensures
        final(estado).status_trocas@ == (if abrir {
            "Aberto"@
        } else {
            "Fechado"@
        }),
        final(estado).periodo_atual == old(estado).periodo_atual,
        final(estado).periodo_seguinte == old(estado).periodo_seguinte,
{
    estado.status_trocas = if abrir {
        String::from_str("Aberto")
    } else {
        String::from_str("Fechado")
    };
}

/// Makes a generated pending period the one in force and closes the trade
/// window; with nothing pending, nothing moves.
pub fn lancar_escala(estado: &mut EstadoEscala)
    ensures
        old(estado).periodo_seguinte is None ==> *final(estado) == *old(estado),
        old(estado).periodo_seguinte matches Some(p) ==> final(estado).periodo_atual == p && final(estado).periodo_seguinte is None && final(estado).status_trocas@ == "Fechado"@,
{
    match estado.periodo_seguinte {
        Some(p) => {
            estado.periodo_atual = p;
            estado.periodo_seguinte = None;
            estado.status_trocas = String::from_str("Fechado");
        },
        None => {},
    }
}

/// Records a freshly generated window as the pending next period; the period
/// in force and the trade-window status do not move.
pub fn registar_periodo_seguinte(estado: &mut EstadoEscala, inicio: i64, fim: i64)
    ensures
        final(estado).periodo_seguinte == Some(Periodo { start_date: inicio, end_date: fim }),
        final(estado).periodo_atual == old(estado).periodo_atual,
        final(estado).status_trocas == old(estado).status_trocas,
{
    estado.periodo_seguinte = Some(Periodo { start_date: inicio, end_date: fim });
}

} // verus!
