//! The roster generator: eligibility filtering, fairness ordering,
//! forced-service pre-emption, debt resolution, standby filling, and the
//! multi-day driving loop.

use vstd::prelude::*;
use vstd::seq_lib::group_to_multiset_ensures;
use crate::tipos::{Genero, TipoServico, Posto, User, Punicao, Divida};
use crate::texto::{vistas, contem_str, sufixo_numerico, spec_sufixo_numerico, u32_decimal, dec};
use crate::contagem::{Contagem, contagem_de, spec_balde, com_balde};
use crate::dividas::{DividasAtivas, DividaPaga, dividas_de};
use crate::tipos::{Alocacao, AlocacaoHorario, PostoEscalado, EscalaDiaria, ConfiguracaoEscala, ids_de_alocacoes, ids_de_horarios, ids_de_postos, sem_repeticao};
use vstd::string::StringExecFns;
use crate::tipos::ContagemUtilizador;
use crate::tipos::Indisponibilidade;

verus! {

/// One day of the requested window: the calendar day number and its routine
/// type.
#[derive(Clone, Copy, Debug, PartialEq, Eq, Structural)]
pub struct DiaRotina {
    pub data: i64,
    pub tipo: TipoServico,
}

/// A person may stand at a post whose gender constraint is mixed or matches
/// their own.
pub open spec fn genero_compativel(exigido: Genero, de: Genero) -> bool {
    match exigido {
        Genero::Misto => true,
        _ => exigido == de,
    }
}

/// Whether a person belongs to the candidate pool of a post on a day: not in
/// the day's exclusion list, class year permitted, and holding the post's
/// exclusive role if it has one.
pub open spec fn pre_elegivel(u: User, posto: Posto, exclusao: Seq<String>) -> bool {
    &&& !vistas(exclusao).contains(u.id@)
    &&& posto.turmas_permitidas@.contains(u.ano)
    &&& match posto.funcao_exclusiva {
        Some(f) => vistas(u.roles@).contains(f@),
        None => true,
    }
}

/// The person-to-post constraints alone: class year permitted, gender
/// compatible, exclusive role held.
pub open spec fn apto_ao_posto(u: User, posto: Posto) -> bool {
    &&& posto.turmas_permitidas@.contains(u.ano)
    &&& genero_compativel(posto.genero, u.genero)
    &&& match posto.funcao_exclusiva {
        Some(f) => vistas(u.roles@).contains(f@),
        None => true,
    }
}

/// Full eligibility at assignment time: in the pool, gender compatible, and
/// not already used today.
pub open spec fn elegivel_agora(
    u: User,
    posto: Posto,
    exclusao: Seq<String>,
    usados: Seq<String>,
) -> bool {
    &&& pre_elegivel(u, posto, exclusao)
    &&& genero_compativel(posto.genero, u.genero)
    &&& !vistas(usados).contains(u.id@)
}

/// Whether the list holds the byte.
pub fn contem_u8(v: &Vec<u8>, x: u8) -> (r: bool)
    ensures
        r == v@.contains(x),
{
    let mut i: usize = 0;
    while i < v.len()
        invariant
            0 <= i <= v@.len(),
            forall|k: int| 0 <= k < i ==> v@[k] != x,
        decreases v@.len() - i,
    {
        if v[i] == x {
            return true;
        }
        i = i + 1;
    }
    false
}

/// Gender compatibility, executed.
pub fn genero_ok(exigido: Genero, de: Genero) -> (r: bool)
    ensures
        r == genero_compativel(exigido, de),
{
    match exigido {
        Genero::Misto => true,
        _ => exigido == de,
    }
}

/// Pool membership, executed.
pub fn e_pre_elegivel(u: &User, posto: &Posto, exclusao: &Vec<String>) -> (r: bool)
    ensures
        r == pre_elegivel(*u, *posto, exclusao@),
{
    if contem_str(exclusao, &u.id) {
        return false;
    }
    if !contem_u8(&posto.turmas_permitidas, u.ano) {
        return false;
    }
    match &posto.funcao_exclusiva {
        Some(f) => contem_str(&u.roles, f),
        None => true,
    }
}

/// Full assignment-time eligibility, executed.
pub fn e_elegivel_agora(
    u: &User,
    posto: &Posto,
    exclusao: &Vec<String>,
    usados: &Vec<String>,
) -> (r: bool)
    ensures
        r == elegivel_agora(*u, *posto, exclusao@, usados@),
{
    e_pre_elegivel(u, posto, exclusao) && genero_ok(posto.genero, u.genero) && !contem_str(
        usados,
        &u.id,
    )
}

/// The fairness key of a person: their counter in the relevant category.
pub open spec fn chave(c: Contagem, tipo: TipoServico, u: User) -> u32 {
    spec_balde(contagem_de(c.registos@, u.id@), tipo)
}

/// The fairness order: lower counter first; on ties the numeric id suffix,
/// ascending on normal-routine days and descending otherwise.
pub open spec fn nao_depois(c: Contagem, tipo: TipoServico, desc: bool, a: User, b: User) -> bool {
    chave(c, tipo, a) < chave(c, tipo, b) || (chave(c, tipo, a) == chave(c, tipo, b) && (if desc {
        spec_sufixo_numerico(a.id@) >= spec_sufixo_numerico(b.id@)
    } else {
        spec_sufixo_numerico(a.id@) <= spec_sufixo_numerico(b.id@)
    }))
}

/// The counter bucket of a routine type, executed.
pub fn balde(c: ContagemUtilizador, tipo: TipoServico) -> (r: u32)
    ensures
        r == spec_balde(c, tipo),
{
    match tipo {
        TipoServico::RN => c.rn,
        TipoServico::Retem => c.retem,
        _ => c.rd,
    }
}

/// The fairness order, executed.
pub fn vem_antes(c: &Contagem, tipo: TipoServico, desc: bool, a: &User, b: &User) -> (r: bool)
    ensures
        r == nao_depois(*c, tipo, desc, *a, *b),
{
    let ka = balde(c.obter(&a.id), tipo);
    let kb = balde(c.obter(&b.id), tipo);
    if ka < kb {
        true
    } else if ka == kb {
        let sa = sufixo_numerico(&a.id);
        let sb = sufixo_numerico(&b.id);
        if desc {
            sa >= sb
        } else {
            sa <= sb
        }
    } else {
        false
    }
}

/// Sorts user indices by the fairness order, keeping the first of equals
/// first.  The result holds exactly the given indices.
#[verifier::loop_isolation(false)]
pub fn ordenar(
    utilizadores: &Vec<User>,
    entrada: Vec<usize>,
    c: &Contagem,
    tipo: TipoServico,
    desc: bool,
) -> (r: Vec<usize>)
    requires
        forall|k: int| 0 <= k < entrada@.len() ==> (#[trigger] entrada@[k]) < utilizadores@.len(),
    ensures
        r@.to_multiset() == entrada@.to_multiset(),
        r@.len() == entrada@.len(),
        forall|k: int| 0 <= k < r@.len() ==> (#[trigger] r@[k]) < utilizadores@.len(),
        forall|i: int, j: int|
            0 <= i < j < r@.len() ==> nao_depois(
                *c,
                tipo,
                desc,
                utilizadores@[r@[i] as int],
                utilizadores@[r@[j] as int],
            ),
{
    broadcast use group_to_multiset_ensures;

    let mut restantes = entrada;
    let mut saida: Vec<usize> = Vec::new();
    while restantes.len() > 0
        invariant
            saida@.to_multiset().add(restantes@.to_multiset()) =~= entrada@.to_multiset(),
            saida@.len() + restantes@.len() == entrada@.len(),
            forall|k: int| 0 <= k < saida@.len() ==> (#[trigger] saida@[k]) < utilizadores@.len(),
            forall|k: int|
                0 <= k < restantes@.len() ==> (#[trigger] restantes@[k]) < utilizadores@.len(),
            forall|i: int, j: int|
                0 <= i < j < saida@.len() ==> nao_depois(
                    *c,
                    tipo,
                    desc,
                    utilizadores@[saida@[i] as int],
                    utilizadores@[saida@[j] as int],
                ),
            forall|i: int, j: int|
                #![trigger saida@[i], restantes@[j]]
                0 <= i < saida@.len() && 0 <= j < restantes@.len() ==> nao_depois(
                    *c,
                    tipo,
                    desc,
                    utilizadores@[saida@[i] as int],
                    utilizadores@[restantes@[j] as int],
                ),
        decreases restantes@.len(),
    {
        let mut melhor: usize = 0;
        let mut m: usize = 1;
        while m < restantes.len()
            invariant
                0 <= melhor < m <= restantes@.len(),
                forall|k: int|
                    0 <= k < m ==> nao_depois(
                        *c,
                        tipo,
                        desc,
                        utilizadores@[restantes@[melhor as int] as int],
                        utilizadores@[#[trigger] restantes@[k] as int],
                    ),
            decreases restantes@.len() - m,
        {
            if !vem_antes(
                c,
                tipo,
                desc,
                &utilizadores[restantes[melhor]],
                &utilizadores[restantes[m]],
            ) {
                melhor = m;
            }
            m = m + 1;
        }
        let escolhido = restantes[melhor];
        let ghost antes_rest = restantes@;
        restantes.remove(melhor);
        saida.push(escolhido);
        proof {
            assert(saida@.to_multiset().add(restantes@.to_multiset()) =~= entrada@.to_multiset());
            assert(forall|j: int|
                0 <= j < restantes@.len() ==> #[trigger] restantes@[j] == (if j < melhor {
                    antes_rest[j]
                } else {
                    antes_rest[j + 1]
                }));
        }
    }
    saida
}

/// The candidate pool of a post: the indices of every pool member, in roster
/// order.
#[verifier::loop_isolation(false)]
pub fn filtrar_pre(utilizadores: &Vec<User>, posto: &Posto, exclusao: &Vec<String>) -> (r: Vec<
    usize,
>)
    ensures
        forall|k: int|
            0 <= k < r@.len() ==> (#[trigger] r@[k]) < utilizadores@.len() && pre_elegivel(
                utilizadores@[r@[k] as int],
                *posto,
                exclusao@,
            ),
        forall|j: int|
            0 <= j < utilizadores@.len() && pre_elegivel(utilizadores@[j], *posto, exclusao@)
                ==> r@.contains(j as usize),
{
    let mut r: Vec<usize> = Vec::new();
    let mut j: usize = 0;
    while j < utilizadores.len()
        invariant
            0 <= j <= utilizadores@.len(),
            forall|k: int|
                0 <= k < r@.len() ==> (#[trigger] r@[k]) < utilizadores@.len() && pre_elegivel(
                    utilizadores@[r@[k] as int],
                    *posto,
                    exclusao@,
                ),
            forall|j2: int|
                0 <= j2 < j && pre_elegivel(utilizadores@[j2], *posto, exclusao@) ==> r@.contains(
                    j2 as usize,
                ),
        decreases utilizadores@.len() - j,
    {
        let ghost antes = r@;
        if e_pre_elegivel(&utilizadores[j], posto, exclusao) {
            r.push(j);
        }
        proof {
            assert forall|j2: int|
                0 <= j2 < j + 1 && pre_elegivel(utilizadores@[j2], *posto, exclusao@) implies r@
                .contains(j2 as usize) by {
                if j2 < j {
                    let w = choose|w: int| 0 <= w < antes.len() && antes[w] == j2 as usize;
                    assert(r@[w] == j2 as usize);
                } else {
                    assert(r@[r@.len() - 1] == j2 as usize);
                }
            }
        }
        j = j + 1;
    }
    r
}

/// The sorted candidate list of a post on a day: everyone in the pool, in
/// fairness order.
pub fn candidatos_ao_posto(
    utilizadores: &Vec<User>,
    posto: &Posto,
    exclusao: &Vec<String>,
    c: &Contagem,
    tipo_contagem: TipoServico,
    desc: bool,
) -> (r: Vec<usize>)
    ensures
        forall|k: int|
            0 <= k < r@.len() ==> (#[trigger] r@[k]) < utilizadores@.len() && pre_elegivel(
                utilizadores@[r@[k] as int],
                *posto,
                exclusao@,
            ),
        forall|j: int|
            0 <= j < utilizadores@.len() && pre_elegivel(utilizadores@[j], *posto, exclusao@)
                ==> r@.contains(j as usize),
        forall|i: int, j: int|
            0 <= i < j < r@.len() ==> nao_depois(
                *c,
                tipo_contagem,
                desc,
                utilizadores@[r@[i] as int],
                utilizadores@[r@[j] as int],
            ),
{
    broadcast use group_to_multiset_ensures;

    let pool = filtrar_pre(utilizadores, posto, exclusao);
    let ghost pool_v = pool@;
    let r = ordenar(utilizadores, pool, c, tipo_contagem, desc);
    proof {
        assert forall|k: int|
            0 <= k < r@.len() implies (#[trigger] r@[k]) < utilizadores@.len() && pre_elegivel(
            utilizadores@[r@[k] as int],
            *posto,
            exclusao@,
        ) by {
            assert(r@.to_multiset().contains(r@[k]));
            assert(pool_v.contains(r@[k]));
            let w = choose|w: int| 0 <= w < pool_v.len() && pool_v[w] == r@[k];
        }
        assert forall|j: int|
            0 <= j < utilizadores@.len() && pre_elegivel(utilizadores@[j], *posto, exclusao@)
            implies r@.contains(j as usize) by {
            assert(pool_v.contains(j as usize));
            assert(pool_v.to_multiset().contains(j as usize));
            assert(r@.to_multiset().contains(j as usize));
        }
    }
    r
}

/// The first position in the sorted candidate list whose person is gender
/// compatible and still unused today: the person §4.4 selects.
#[verifier::loop_isolation(false)]
pub fn primeiro_candidato(
    utilizadores: &Vec<User>,
    cand: &Vec<usize>,
    genero: Genero,
    usados: &Vec<String>,
) -> (r: Option<usize>)
    requires
        forall|k: int| 0 <= k < cand@.len() ==> (#[trigger] cand@[k]) < utilizadores@.len(),
    ensures
        match r {
            Some(p) => p < cand@.len() && apto(
                utilizadores@[cand@[p as int] as int],
                genero,
                usados@,
            ) && (forall|q: int|
                0 <= q < p ==> !apto(utilizadores@[#[trigger] cand@[q] as int], genero, usados@)),
            None => forall|q: int|
                0 <= q < cand@.len() ==> !apto(
                    utilizadores@[#[trigger] cand@[q] as int],
                    genero,
                    usados@,
                ),
        },
{
    let mut p: usize = 0;
    while p < cand.len()
        invariant
            0 <= p <= cand@.len(),
            forall|q: int|
                0 <= q < p ==> !apto(utilizadores@[#[trigger] cand@[q] as int], genero, usados@),
        decreases cand@.len() - p,
    {
        let u = &utilizadores[cand[p]];
        if genero_ok(genero, u.genero) && !contem_str(usados, &u.id) {
            return Some(p);
        }
        p = p + 1;
    }
    None
}

/// Gender compatible and unused today: what assignment still checks once a
/// person is drawn from the pre-filtered pool.
pub open spec fn apto(u: User, genero: Genero, usados: Seq<String>) -> bool {
    genero_compativel(genero, u.genero) && !vistas(usados).contains(u.id@)
}

/// The first person in the roster with the given id, or none.
#[verifier::loop_isolation(false)]
pub fn procurar_user(utilizadores: &Vec<User>, id: &String) -> (r: Option<usize>)
    ensures
        match r {
            Some(j) => j < utilizadores@.len() && utilizadores@[j as int].id@ == id@ && (forall|
                k: int,
            |
                0 <= k < j ==> (#[trigger] utilizadores@[k]).id@ != id@),
            None => forall|k: int|
                0 <= k < utilizadores@.len() ==> (#[trigger] utilizadores@[k]).id@ != id@,
        },
{
    let mut j: usize = 0;
    while j < utilizadores.len()
        invariant
            0 <= j <= utilizadores@.len(),
            forall|k: int| 0 <= k < j ==> (#[trigger] utilizadores@[k]).id@ != id@,
        decreases utilizadores@.len() - j,
    {
        if utilizadores[j].id.eq(id) {
            proof {
                lema_indice_user_salta(utilizadores@, id@, j as int);
                assert(utilizadores@.skip(j as int)[0] == utilizadores@[j as int]);
            }
            return Some(j);
        }
        j = j + 1;
    }
    proof {
        lema_indice_user_salta(utilizadores@, id@, utilizadores@.len() as int);
        assert(utilizadores@.skip(utilizadores@.len() as int) =~= Seq::empty());
    }
    None
}

/// The index of the first person with the given id, or `-1`.
pub open spec fn indice_user(us: Seq<User>, id: Seq<char>) -> int
    decreases us.len(),
{
    if us.len() == 0 {
        -1
    } else if us[0].id@ == id {
        0
    } else {
        let r = indice_user(us.drop_first(), id);
        if r == -1 {
            -1
        } else {
            r + 1
        }
    }
}

/// A found id has a well-formed first index.
pub proof fn lema_indice_user_limites(us: Seq<User>, id: Seq<char>)
    ensures
        indice_user(us, id) != -1 ==> 0 <= indice_user(us, id) < us.len() && us[indice_user(
            us,
            id,
        )].id@ == id,
    decreases us.len(),
{
    if us.len() > 0 && us[0].id@ != id {
        lema_indice_user_limites(us.drop_first(), id);
        if indice_user(us.drop_first(), id) != -1 {
            assert(us[indice_user(us, id)] == us.drop_first()[indice_user(us.drop_first(), id)]);
        }
    }
}

proof fn lema_indice_user_salta(us: Seq<User>, id: Seq<char>, j: int)
    requires
        0 <= j <= us.len(),
        forall|k: int| 0 <= k < j ==> (#[trigger] us[k]).id@ != id,
    ensures
        indice_user(us, id) == (if indice_user(us.skip(j), id) == -1 {
            -1int
        } else {
            j + indice_user(us.skip(j), id)
        }),
    decreases j,
{
    if j > 0 {
        lema_indice_user_salta(us, id, j - 1);
        lema_indice_user_limites(us.skip(j), id);
        assert(us.skip(j - 1).drop_first() =~= us.skip(j));
        assert(us.skip(j - 1)[0] == us[j - 1]);
        assert(indice_user(us.skip(j - 1), id) == (if indice_user(us.skip(j), id) == -1 {
            -1int
        } else {
            1 + indice_user(us.skip(j), id)
        }));
    } else {
        assert(us.skip(0) =~= us);
    }
}

/// Whether the `i`-th punishment record can pre-empt this slot: the record is
/// still open, its last unit is not deferred today, its person exists and is
/// fully eligible.
pub open spec fn punido_designavel(
    punicoes: Seq<Punicao>,
    i: int,
    us: Seq<User>,
    posto: Posto,
    exclusao: Seq<String>,
    usados: Seq<String>,
    adiar: bool,
) -> bool {
    let p = punicoes[i];
    let ui = indice_user(us, p.user_id@);
    &&& p.aberta()
    &&& !(p.total_a_cumprir - p.ja_cumpridos == 1 && adiar)
    &&& ui != -1
    &&& elegivel_agora(us[ui], posto, exclusao, usados)
}

/// The first punishment record that can pre-empt this slot, with its person.
#[verifier::loop_isolation(false)]
pub fn escolher_punido(
    punicoes: &Vec<Punicao>,
    utilizadores: &Vec<User>,
    posto: &Posto,
    exclusao: &Vec<String>,
    usados: &Vec<String>,
    adiar: bool,
) -> (r: Option<(usize, usize)>)
    ensures
        match r {
            Some((i, ui)) => i < punicoes@.len() && punido_designavel(
                punicoes@,
                i as int,
                utilizadores@,
                *posto,
                exclusao@,
                usados@,
                adiar,
            ) && ui as int == indice_user(utilizadores@, punicoes@[i as int].user_id@) && (forall|
                i2: int,
            |
                0 <= i2 < i ==> !punido_designavel(
                    punicoes@,
                    i2,
                    utilizadores@,
                    *posto,
                    exclusao@,
                    usados@,
                    adiar,
                )),
            None => forall|i2: int|
                0 <= i2 < punicoes@.len() ==> !punido_designavel(
                    punicoes@,
                    i2,
                    utilizadores@,
                    *posto,
                    exclusao@,
                    usados@,
                    adiar,
                ),
        },
{
    let mut i: usize = 0;
    while i < punicoes.len()
        invariant
            0 <= i <= punicoes@.len(),
            forall|i2: int|
                0 <= i2 < i ==> !punido_designavel(
                    punicoes@,
                    i2,
                    utilizadores@,
                    *posto,
                    exclusao@,
                    usados@,
                    adiar,
                ),
        decreases punicoes@.len() - i,
    {
        let p = &punicoes[i];
        if p.ja_cumpridos < p.total_a_cumprir && !(p.total_a_cumprir - p.ja_cumpridos == 1
            && adiar) {
            match procurar_user(utilizadores, &p.user_id) {
                Some(ui) => {
                    proof {
                        lema_indice_user_salta(utilizadores@, p.user_id@, ui as int);
                        assert(utilizadores@.skip(ui as int)[0] == utilizadores@[ui as int]);
                    }
                    if e_elegivel_agora(&utilizadores[ui], posto, exclusao, usados) {
                        return Some((i, ui));
                    }
                },
                None => {
                    proof {
                        lema_indice_user_salta(
                            utilizadores@,
                            p.user_id@,
                            utilizadores@.len() as int,
                        );
                        assert(utilizadores@.skip(utilizadores@.len() as int) =~= Seq::empty());
                    }
                },
            }
        }
        i = i + 1;
    }
    None
}

/// A debt is repayable today when its category matches the day: a
/// normal-routine debt only on a normal-routine day, any other debt only on a
/// special-routine day.
pub open spec fn divida_compativel(d: Divida, tipo_contagem: TipoServico) -> bool {
    if d.tipo_divida is RN {
        tipo_contagem is RN
    } else {
        !(tipo_contagem is RN)
    }
}

/// Whether the `k`-th debt of the selected candidate can be repaid on this
/// slot: repayable today, and its creditor exists, is eligible and unused.
pub open spec fn credor_designavel(
    l: Seq<Divida>,
    k: int,
    us: Seq<User>,
    posto: Posto,
    exclusao: Seq<String>,
    usados: Seq<String>,
    tipo_contagem: TipoServico,
) -> bool {
    let ui = indice_user(us, l[k].credor@);
    &&& divida_compativel(l[k], tipo_contagem)
    &&& ui != -1
    &&& elegivel_agora(us[ui], posto, exclusao, usados)
}

/// Repayability of a debt today, executed.
pub fn e_divida_compativel(d: &Divida, tipo_contagem: TipoServico) -> (r: bool)
    ensures
        r == divida_compativel(*d, tipo_contagem),
{
    match d.tipo_divida {
        TipoServico::RN => matches!(tipo_contagem, TipoServico::RN),
        _ => !matches!(tipo_contagem, TipoServico::RN),
    }
}

/// The first repayable debt of the candidate, with its creditor.
#[verifier::loop_isolation(false)]
pub fn escolher_credor(
    lista: &Vec<Divida>,
    utilizadores: &Vec<User>,
    posto: &Posto,
    exclusao: &Vec<String>,
    usados: &Vec<String>,
    tipo_contagem: TipoServico,
) -> (r: Option<(usize, usize)>)
    ensures
        match r {
            Some((k, ui)) => k < lista@.len() && credor_designavel(
                lista@,
                k as int,
                utilizadores@,
                *posto,
                exclusao@,
                usados@,
                tipo_contagem,
            ) && ui as int == indice_user(utilizadores@, lista@[k as int].credor@) && (forall|
                k2: int,
            |
                0 <= k2 < k ==> !credor_designavel(
                    lista@,
                    k2,
                    utilizadores@,
                    *posto,
                    exclusao@,
                    usados@,
                    tipo_contagem,
                )),
            None => forall|k2: int|
                0 <= k2 < lista@.len() ==> !credor_designavel(
                    lista@,
                    k2,
                    utilizadores@,
                    *posto,
                    exclusao@,
                    usados@,
                    tipo_contagem,
                ),
        },
{
    let mut k: usize = 0;
    while k < lista.len()
        invariant
            0 <= k <= lista@.len(),
            forall|k2: int|
                0 <= k2 < k ==> !credor_designavel(
                    lista@,
                    k2,
                    utilizadores@,
                    *posto,
                    exclusao@,
                    usados@,
                    tipo_contagem,
                ),
        decreases lista@.len() - k,
    {
        if e_divida_compativel(&lista[k], tipo_contagem) {
            match procurar_user(utilizadores, &lista[k].credor) {
                Some(ui) => {
                    proof {
                        lema_indice_user_salta(utilizadores@, lista@[k as int].credor@, ui as int);
                        assert(utilizadores@.skip(ui as int)[0] == utilizadores@[ui as int]);
                    }
                    if e_elegivel_agora(&utilizadores[ui], posto, exclusao, usados) {
                        return Some((k, ui));
                    }
                },
                None => {
                    proof {
                        lema_indice_user_salta(
                            utilizadores@,
                            lista@[k as int].credor@,
                            utilizadores@.len() as int,
                        );
                        assert(utilizadores@.skip(utilizadores@.len() as int) =~= Seq::empty());
                    }
                },
            }
        }
        k = k + 1;
    }
    None
}

/// The counter bucket that a day's routine credits: the normal-routine
/// bucket on normal days, the shared special bucket otherwise.
pub open spec fn tipo_contagem_de(tipo_dia: TipoServico) -> TipoServico {
    if tipo_dia is RN {
        TipoServico::RN
    } else {
        TipoServico::RD
    }
}

/// The forced-service display label: the name annotated with progress.
pub open spec fn rotulo_punicao(nome: Seq<char>, feito: int, total: int) -> Seq<char> {
    nome + " ("@ + dec(feito) + "/"@ + dec(total) + ")"@
}

/// A name with a marker appended, executed.
pub fn com_sufixo(nome: &String, sufixo: &str) -> (r: String)
    ensures
        r@ == nome@ + sufixo@,
{
    let mut s = nome.clone();
    s.append(sufixo);
    s
}

/// The forced-service display label, executed.
pub fn rotulo_progresso(nome: &String, feito: u32, total: u32) -> (r: String)
    ensures
        r@ == rotulo_punicao(nome@, feito as int, total as int),
{
    let mut s = nome.clone();
    s.append(" (");
    let d1 = u32_decimal(feito);
    s.append(d1.as_str());
    s.append("/");
    let d2 = u32_decimal(total);
    s.append(d2.as_str());
    s.append(")");
    proof {
        assert(s@ =~= rotulo_punicao(nome@, feito as int, total as int));
    }
    s
}

/// Some open punishment record can pre-empt this slot.
pub open spec fn existe_punido(
    punicoes: Seq<Punicao>,
    us: Seq<User>,
    posto: Posto,
    exclusao: Seq<String>,
    usados: Seq<String>,
    adiar: bool,
) -> bool {
    exists|i: int|
        0 <= i < punicoes.len() && punido_designavel(punicoes, i, us, posto, exclusao, usados, adiar)
}

/// Some candidate of the pool is still assignable.
pub open spec fn existe_apto(us: Seq<User>, cand: Seq<usize>, genero: Genero, usados: Seq<String>) -> bool {
    exists|p: int| 0 <= p < cand.len() && apto(us[#[trigger] cand[p] as int], genero, usados)
}

/// Some debt of the candidate's list is repayable here.
pub open spec fn existe_credor(
    l: Seq<Divida>,
    us: Seq<User>,
    posto: Posto,
    exclusao: Seq<String>,
    usados: Seq<String>,
    tc: TipoServico,
) -> bool {
    exists|k: int| 0 <= k < l.len() && credor_designavel(l, k, us, posto, exclusao, usados, tc)
}

/// Exactly the person `id` was credited one service of category `tc`.
pub open spec fn creditado(antes: Contagem, depois: Contagem, id: Seq<char>, tc: TipoServico) -> bool {
    &&& contagem_de(depois.registos@, id) == com_balde(
        contagem_de(antes.registos@, id),
        tc,
        (spec_balde(contagem_de(antes.registos@, id), tc) + 1) as u32,
    )
    &&& spec_balde(contagem_de(antes.registos@, id), tc) < u32::MAX
    &&& forall|outro: Seq<char>|
        outro != id ==> #[trigger] contagem_de(depois.registos@, outro) == contagem_de(
            antes.registos@,
            outro,
        )
}

/// Fills one slot of one post, as §4.3 and §4.4 prescribe: forced service
/// first where it applies, then the fairness candidate or the creditor of one
/// of their repayable debts.  Returns the assignment made, or nothing when
/// no one can stand the slot.
pub fn alocar_horario(
    utilizadores: &Vec<User>,
    posto: &Posto,
    cand: &Vec<usize>,
    tipo_dia: TipoServico,
    adiar: bool,
    punir_aqui: bool,
    exclusao: &Vec<String>,
    usados: &mut Vec<String>,
    contagens: &mut Contagem,
    punicoes: &mut Vec<Punicao>,
    dividas: &DividasAtivas,
    pagas: &mut Vec<DividaPaga>,
) -> (r: Option<Alocacao>)
    requires
        forall|k: int|
            0 <= k < cand@.len() ==> (#[trigger] cand@[k]) < utilizadores@.len() && pre_elegivel(
                utilizadores@[cand@[k] as int],
                *posto,
                exclusao@,
            ),
        forall|i: int| 0 <= i < old(punicoes)@.len() ==> (#[trigger] old(punicoes)@[i]).bem_formada(),
        crate::contagem::folga(*old(contagens), 1),
    ensures
        ({
            let us = utilizadores@;
            let tc = tipo_contagem_de(tipo_dia);
            let ha_punido = punir_aqui && existe_punido(
                old(punicoes)@,
                us,
                *posto,
                exclusao@,
                old(usados)@,
                adiar,
            );
            let ha_apto = existe_apto(us, cand@, posto.genero, old(usados)@);
            &&& (r is None <==> !ha_punido && !ha_apto)
            &&& (r matches Some(a) ==> final(usados)@ == old(usados)@.push(a.user_id) && !vistas(
                old(usados)@,
            ).contains(a.user_id@))
            &&& (r matches Some(a) ==> exists|ui: int|
                0 <= ui < us.len() && (#[trigger] us[ui]).id@ == a.user_id@ && elegivel_agora(
                    us[ui],
                    *posto,
                    exclusao@,
                    old(usados)@,
                ))
            &&& (r is None ==> final(usados)@ == old(usados)@ && final(contagens).registos@ == old(
                contagens,
            ).registos@ && final(punicoes)@ == old(punicoes)@ && final(pagas)@ == old(pagas)@)
            &&& crate::contagem::cresce_no_maximo(*old(contagens), *final(contagens), 1)
            &&& crate::contagem::nao_diminui(*old(contagens), *final(contagens))
            &&& old(pagas)@.len() <= final(pagas)@.len()
            &&& (forall|k: int| 0 <= k < old(pagas)@.len() ==> final(pagas)@[k] == old(pagas)@[k])
            &&& final(punicoes)@.len() == old(punicoes)@.len()
            &&& (forall|i: int|
                0 <= i < final(punicoes)@.len() ==> {
                    let antes = old(punicoes)@[i];
                    let depois = #[trigger] final(punicoes)@[i];
                    &&& depois.user_id == antes.user_id
                    &&& depois.total_a_cumprir == antes.total_a_cumprir
                    &&& antes.ja_cumpridos <= depois.ja_cumpridos <= antes.ja_cumpridos + 1
                    &&& depois.bem_formada()
                    &&& (depois.ja_cumpridos != antes.ja_cumpridos ==> antes.aberta())
                })
            &&& (ha_punido ==> (r matches Some(a) && a.punicao && final(pagas)@ == old(pagas)@
                && (forall|i: int|
                #![trigger punido_designavel(old(punicoes)@, i, us, *posto, exclusao@, old(usados)@, adiar)]
                0 <= i < old(punicoes)@.len() && punido_designavel(
                    old(punicoes)@,
                    i,
                    us,
                    *posto,
                    exclusao@,
                    old(usados)@,
                    adiar,
                ) && (forall|i2: int|
                    0 <= i2 < i ==> !punido_designavel(
                        old(punicoes)@,
                        i2,
                        us,
                        *posto,
                        exclusao@,
                        old(usados)@,
                        adiar,
                    )) ==> {
                    let p = old(punicoes)@[i];
                    let ui = indice_user(us, p.user_id@);
                    &&& a.user_id@ == us[ui].id@
                    &&& a.nome@ == rotulo_punicao(
                        us[ui].name@,
                        p.ja_cumpridos + 1,
                        p.total_a_cumprir as int,
                    )
                    &&& final(punicoes)@ == old(punicoes)@.update(
                        i,
                        Punicao {
                            user_id: p.user_id,
                            total_a_cumprir: p.total_a_cumprir,
                            ja_cumpridos: (p.ja_cumpridos + 1) as u32,
                        },
                    )
                    &&& (ha_apto ==> forall|pp: int|
                        #![trigger cand@[pp]]
                        0 <= pp < cand@.len() && apto(us[cand@[pp] as int], posto.genero, old(usados)@)
                            && (forall|q: int|
                            0 <= q < pp ==> !apto(
                                us[#[trigger] cand@[q] as int],
                                posto.genero,
                                old(usados)@,
                            )) ==> creditado(
                            *old(contagens),
                            *final(contagens),
                            us[cand@[pp] as int].id@,
                            tc,
                        ))
                    &&& (!ha_apto ==> final(contagens).registos@ == old(contagens).registos@)
                })))
            &&& (!ha_punido ==> final(punicoes)@ == old(punicoes)@)
            &&& (!ha_punido && ha_apto ==> (r matches Some(a) && !a.punicao && (forall|pp: int|
                #![trigger cand@[pp]]
                0 <= pp < cand@.len() && apto(us[cand@[pp] as int], posto.genero, old(usados)@) && (
                forall|q: int|
                    0 <= q < pp ==> !apto(
                        us[#[trigger] cand@[q] as int],
                        posto.genero,
                        old(usados)@,
                    )) ==> {
                    let cidx = cand@[pp] as int;
                    let lc = dividas_de(dividas.registos@, us[cidx].id@);
                    let ha_credor = existe_credor(lc, us, *posto, exclusao@, old(usados)@, tc);
                    &&& (ha_credor ==> forall|k: int|
                        #![trigger credor_designavel(lc, k, us, *posto, exclusao@, old(usados)@, tc)]
                        0 <= k < lc.len() && credor_designavel(
                            lc,
                            k,
                            us,
                            *posto,
                            exclusao@,
                            old(usados)@,
                            tc,
                        ) && (forall|k2: int|
                            0 <= k2 < k ==> !credor_designavel(
                                lc,
                                k2,
                                us,
                                *posto,
                                exclusao@,
                                old(usados)@,
                                tc,
                            )) ==> {
                            let cui = indice_user(us, lc[k].credor@);
                            &&& a.user_id@ == us[cui].id@
                            &&& a.nome@ == us[cui].name@ + " (PG)"@
                            &&& final(pagas)@ == old(pagas)@.push(
                                DividaPaga { devedor: us[cidx].id, divida: lc[k] },
                            )
                            &&& creditado(*old(contagens), *final(contagens), us[cui].id@, tc)
                        })
                    &&& (!ha_credor ==> a.user_id@ == us[cidx].id@ && a.nome@ == us[cidx].name@
                        && final(pagas)@ == old(pagas)@ && creditado(
                        *old(contagens),
                        *final(contagens),
                        us[cidx].id@,
                        tc,
                    ))
                })))
        }),
{
    let ghost us = utilizadores@;
    let ghost usados0 = usados@;
    let ghost g = posto.genero;
    let tc = if matches!(tipo_dia, TipoServico::RN) {
        TipoServico::RN
    } else {
        TipoServico::RD
    };
    if punir_aqui {
        match escolher_punido(punicoes, utilizadores, posto, exclusao, usados, adiar) {
            Some((i, ui)) => {
                proof {
                    lema_indice_user_limites(us, punicoes@[i as int].user_id@);
                    assert(existe_punido(punicoes@, us, *posto, exclusao@, usados0, adiar));
                    assert forall|i2: int|
                        0 <= i2 < punicoes@.len() && punido_designavel(
                            punicoes@,
                            i2,
                            us,
                            *posto,
                            exclusao@,
                            usados0,
                            adiar,
                        ) && (forall|i3: int|
                            0 <= i3 < i2 ==> !punido_designavel(
                                punicoes@,
                                i3,
                                us,
                                *posto,
                                exclusao@,
                                usados0,
                                adiar,
                            )) implies i2 == i as int by {
                        if i2 < i as int {
                            assert(!punido_designavel(
                                punicoes@,
                                i2,
                                us,
                                *posto,
                                exclusao@,
                                usados0,
                                adiar,
                            ));
                        }
                        if i2 > i as int {
                            assert(!punido_designavel(
                                punicoes@,
                                i as int,
                                us,
                                *posto,
                                exclusao@,
                                usados0,
                                adiar,
                            ));
                        }
                    }
                }
                match primeiro_candidato(utilizadores, cand, posto.genero, usados) {
                    Some(p) => {
                        proof {
                            assert(existe_apto(us, cand@, g, usados0));
                            lema_primeiro_apto_unico(us, cand@, g, usados0, p as int);
                        }
                        contagens.incrementar(&utilizadores[cand[p]].id, tc);
                    },
                    None => {
                        proof {
                            assert(!existe_apto(us, cand@, g, usados0));
                        }
                    },
                }
                let ja = punicoes[i].ja_cumpridos;
                let total = punicoes[i].total_a_cumprir;
                let u = &utilizadores[ui];
                let nome = rotulo_progresso(&u.name, ja + 1, total);
                punicoes[i].ja_cumpridos = ja + 1;
                usados.push(u.id.clone());
                proof {
                    assert(final(punicoes)@ =~= old(punicoes)@.update(
                        i as int,
                        Punicao {
                            user_id: old(punicoes)@[i as int].user_id,
                            total_a_cumprir: total,
                            ja_cumpridos: (ja + 1) as u32,
                        },
                    ));
                }
                proof {
                    assert(us[ui as int].id@ == u.id@ && elegivel_agora(
                        us[ui as int],
                        *posto,
                        exclusao@,
                        usados0,
                    ));
                }
                return Some(Alocacao { user_id: u.id.clone(), nome, punicao: true });
            },
            None => {},
        }
    }
    match primeiro_candidato(utilizadores, cand, posto.genero, usados) {
        None => {
            return None;
        },
        Some(p) => {
            proof {
                assert(existe_apto(us, cand@, g, usados0));
                lema_primeiro_apto_unico(us, cand@, g, usados0, p as int);
            }
            let cidx = cand[p];
            match dividas.indice_devedor(&utilizadores[cidx].id) {
                Some(ri) => {
                    match escolher_credor(
                        &dividas.registos[ri].dividas,
                        utilizadores,
                        posto,
                        exclusao,
                        usados,
                        tc,
                    ) {
                        Some((k, cui)) => {
                            let ghost lc = dividas_de(dividas.registos@, us[cidx as int].id@);
                            proof {
                                lema_indice_user_limites(us, lc[k as int].credor@);
                                assert(existe_credor(lc, us, *posto, exclusao@, usados0, tc));
                                assert forall|k2: int|
                                    0 <= k2 < lc.len() && credor_designavel(
                                        lc,
                                        k2,
                                        us,
                                        *posto,
                                        exclusao@,
                                        usados0,
                                        tc,
                                    ) && (forall|k3: int|
                                        0 <= k3 < k2 ==> !credor_designavel(
                                            lc,
                                            k3,
                                            us,
                                            *posto,
                                            exclusao@,
                                            usados0,
                                            tc,
                                        )) implies k2 == k as int by {
                                    if k2 < k as int {
                                        assert(!credor_designavel(
                                            lc,
                                            k2,
                                            us,
                                            *posto,
                                            exclusao@,
                                            usados0,
                                            tc,
                                        ));
                                    }
                                    if k2 > k as int {
                                        assert(!credor_designavel(
                                            lc,
                                            k as int,
                                            us,
                                            *posto,
                                            exclusao@,
                                            usados0,
                                            tc,
                                        ));
                                    }
                                }
                            }
                            let divida = Divida {
                                credor: dividas.registos[ri].dividas[k].credor.clone(),
                                tipo_divida: dividas.registos[ri].dividas[k].tipo_divida,
                            };
                            pagas.push(
                                DividaPaga { devedor: utilizadores[cidx].id.clone(), divida },
                            );
                            let credor = &utilizadores[cui];
                            contagens.incrementar(&credor.id, tc);
                            usados.push(credor.id.clone());
                            let nome = com_sufixo(&credor.name, " (PG)");
                            proof {
                                assert(final(pagas)@ =~= old(pagas)@.push(
                                    DividaPaga { devedor: us[cidx as int].id, divida: lc[k as int] },
                                ));
                                assert(us[cui as int].id@ == credor.id@ && elegivel_agora(
                                    us[cui as int],
                                    *posto,
                                    exclusao@,
                                    usados0,
                                ));
                            }
                            return Some(
                                Alocacao { user_id: credor.id.clone(), nome, punicao: false },
                            );
                        },
                        None => {},
                    }
                },
                None => {},
            }
            let u = &utilizadores[cidx];
            contagens.incrementar(&u.id, tc);
            usados.push(u.id.clone());
            proof {
                assert(us[cidx as int].id@ == u.id@ && elegivel_agora(
                    us[cidx as int],
                    *posto,
                    exclusao@,
                    usados0,
                ));
            }
            return Some(
                Alocacao { user_id: u.id.clone(), nome: u.name.clone(), punicao: false },
            );
        },
    }
}

/// Whether some punishment record names this person, open or not: the
/// standby pool excludes everyone under punishment.
pub open spec fn id_punido(punicoes: Seq<Punicao>, id: Seq<char>) -> bool {
    exists|i: int| 0 <= i < punicoes.len() && (#[trigger] punicoes[i]).user_id@ == id
}

/// Punishment-list membership, executed.
pub fn esta_punido(punicoes: &Vec<Punicao>, id: &String) -> (r: bool)
    ensures
        r == id_punido(punicoes@, id@),
{
    let mut i: usize = 0;
    while i < punicoes.len()
        invariant
            0 <= i <= punicoes@.len(),
            forall|k: int| 0 <= k < i ==> (#[trigger] punicoes@[k]).user_id@ != id@,
        decreases punicoes@.len() - i,
    {
        if punicoes[i].user_id.eq(id) {
            return true;
        }
        i = i + 1;
    }
    false
}

/// Standby eligibility: the right class year, not excluded today, not under
/// any punishment, and not already used today.
pub open spec fn retem_elegivel(
    u: User,
    ano: u8,
    exclusao: Seq<String>,
    punicoes: Seq<Punicao>,
    usados: Seq<String>,
) -> bool {
    &&& u.ano == ano
    &&& !vistas(exclusao).contains(u.id@)
    &&& !id_punido(punicoes, u.id@)
    &&& !vistas(usados).contains(u.id@)
}

/// Fills the standby quota of one class year from the unused eligible
/// people, in ascending standby-counter order with descending id tie-break,
/// crediting each one's standby counter.
#[verifier::loop_isolation(false)]
pub fn preencher_retem_ano(
    ano: u8,
    quota: usize,
    utilizadores: &Vec<User>,
    exclusao: &Vec<String>,
    punicoes: &Vec<Punicao>,
    usados: &mut Vec<String>,
    contagens: &mut Contagem,
    retem: &mut Vec<Alocacao>,
)
    requires
        crate::contagem::folga(*old(contagens), quota as nat),
    ensures
        old(retem)@.len() <= final(retem)@.len() <= old(retem)@.len() + quota,
        forall|k: int| 0 <= k < old(retem)@.len() ==> final(retem)@[k] == old(retem)@[k],
        vistas(final(usados)@) == vistas(old(usados)@) + ids_de_alocacoes(
            final(retem)@.skip(old(retem)@.len() as int),
        ),
        sem_repeticao(vistas(old(usados)@)) ==> sem_repeticao(vistas(final(usados)@)),
        forall|x: Seq<char>|
            vistas(final(usados)@).contains(x) ==> vistas(old(usados)@).contains(x) || !vistas(
                exclusao@,
            ).contains(x),
        crate::contagem::cresce_no_maximo(*old(contagens), *final(contagens), quota as nat),
        crate::contagem::nao_diminui(*old(contagens), *final(contagens)),
        final(retem)@.len() - old(retem)@.len() < quota ==> (forall|j: int|
            0 <= j < utilizadores@.len() && retem_elegivel(
                #[trigger] utilizadores@[j],
                ano,
                exclusao@,
                punicoes@,
                old(usados)@,
            ) ==> vistas(final(usados)@).contains(utilizadores@[j].id@)),
        forall|k: int|
            old(retem)@.len() <= k < final(retem)@.len() ==> {
                let a = #[trigger] final(retem)@[k];
                &&& !a.punicao
                &&& exists|ui: int|
                    0 <= ui < utilizadores@.len() && (#[trigger] utilizadores@[ui]).id@ == a.user_id@
                        && utilizadores@[ui].name@ == a.nome@ && retem_elegivel(
                        utilizadores@[ui],
                        ano,
                        exclusao@,
                        punicoes@,
                        old(usados)@,
                    )
            },
{
    broadcast use group_to_multiset_ensures;

    let ghost usados_ini = usados@;
    let ghost retem_ini = retem@;
    let ghost cont_ini = *contagens;
    let mut pool: Vec<usize> = Vec::new();
    let mut j: usize = 0;
    while j < utilizadores.len()
        invariant
            usados@ == usados_ini,
            0 <= j <= utilizadores@.len(),
            forall|k: int|
                0 <= k < pool@.len() ==> (#[trigger] pool@[k]) < utilizadores@.len()
                    && retem_elegivel(
                    utilizadores@[pool@[k] as int],
                    ano,
                    exclusao@,
                    punicoes@,
                    usados_ini,
                ),
            forall|j2: int|
                0 <= j2 < j && retem_elegivel(
                    #[trigger] utilizadores@[j2],
                    ano,
                    exclusao@,
                    punicoes@,
                    usados_ini,
                ) ==> pool@.contains(j2 as usize),
        decreases utilizadores@.len() - j,
    {
        let ghost pool_antes = pool@;
        let u = &utilizadores[j];
        if u.ano == ano && !contem_str(exclusao, &u.id) && !esta_punido(punicoes, &u.id)
            && !contem_str(usados, &u.id) {
            pool.push(j);
        }
        proof {
            assert forall|j2: int|
                0 <= j2 < j + 1 && retem_elegivel(
                    #[trigger] utilizadores@[j2],
                    ano,
                    exclusao@,
                    punicoes@,
                    usados_ini,
                ) implies pool@.contains(j2 as usize) by {
                if j2 < j {
                    let w = choose|w: int| 0 <= w < pool_antes.len() && pool_antes[w] == j2 as usize;
                    assert(pool@[w] == j2 as usize);
                } else {
                    assert(pool@[pool@.len() - 1] == j2 as usize);
                }
            }
        }
        j = j + 1;
    }
    let ghost pool_v = pool@;
    let ordem = ordenar(utilizadores, pool, contagens, TipoServico::Retem, true);
    proof {
        assert forall|k: int|
            0 <= k < ordem@.len() implies (#[trigger] ordem@[k]) < utilizadores@.len()
            && retem_elegivel(
            utilizadores@[ordem@[k] as int],
            ano,
            exclusao@,
            punicoes@,
            usados_ini,
        ) by {
            assert(ordem@.to_multiset().contains(ordem@[k]));
            assert(pool_v.contains(ordem@[k]));
            let w = choose|w: int| 0 <= w < pool_v.len() && pool_v[w] == ordem@[k];
        }
        assert forall|j2: int|
            0 <= j2 < utilizadores@.len() && retem_elegivel(
                #[trigger] utilizadores@[j2],
                ano,
                exclusao@,
                punicoes@,
                usados_ini,
            ) implies ordem@.contains(j2 as usize) by {
            assert(pool_v.contains(j2 as usize));
            assert(pool_v.to_multiset().contains(j2 as usize));
            assert(ordem@.to_multiset().contains(j2 as usize));
        }
    }
    let mut conta_novos: usize = 0;
    let mut m: usize = 0;
    while m < ordem.len() && conta_novos < quota
        invariant
            0 <= m <= ordem@.len(),
            0 <= conta_novos <= quota,
            retem@.len() == retem_ini.len() + conta_novos,
            forall|k: int| 0 <= k < retem_ini.len() ==> retem@[k] == retem_ini[k],
            vistas(usados@) == vistas(usados_ini) + ids_de_alocacoes(
                retem@.skip(retem_ini.len() as int),
            ),
            sem_repeticao(vistas(usados_ini)) ==> sem_repeticao(vistas(usados@)),
            forall|x: Seq<char>|
                vistas(usados@).contains(x) ==> vistas(usados_ini).contains(x) || !vistas(
                    exclusao@,
                ).contains(x),
            crate::contagem::folga(*contagens, (quota - conta_novos) as nat),
            crate::contagem::cresce_no_maximo(cont_ini, *contagens, conta_novos as nat),
            crate::contagem::nao_diminui(cont_ini, *contagens),
            forall|k: int|
                retem_ini.len() <= k < retem@.len() ==> {
                    let a = #[trigger] retem@[k];
                    &&& !a.punicao
                    &&& exists|ui: int|
                        0 <= ui < utilizadores@.len() && (#[trigger] utilizadores@[ui]).id@
                            == a.user_id@ && utilizadores@[ui].name@ == a.nome@ && retem_elegivel(
                            utilizadores@[ui],
                            ano,
                            exclusao@,
                            punicoes@,
                            usados_ini,
                        )
                },
            conta_novos == quota || (forall|m2: int|
                0 <= m2 < m ==> vistas(usados@).contains(
                    utilizadores@[#[trigger] ordem@[m2] as int].id@,
                )),
        decreases ordem@.len() - m,
    {
        let ui = ordem[m];
        let ghost usados_volta = usados@;
        let u = &utilizadores[ui];
        let presente = contem_str(usados, &u.id);
        if !presente {
            let ghost usados_antes = usados@;
            let ghost retem_antes = retem@;
            let ghost cont_antes = *contagens;
            let a = Alocacao { user_id: u.id.clone(), nome: u.name.clone(), punicao: false };
            retem.push(a);
            usados.push(u.id.clone());
            contagens.incrementar(&u.id, TipoServico::Retem);
            conta_novos = conta_novos + 1;
            proof {
                crate::texto::lema_vistas_push(usados_antes, utilizadores@[ui as int].id);
                assert(retem@.skip(retem_ini.len() as int) =~= retem_antes.skip(
                    retem_ini.len() as int,
                ).push(retem@[retem@.len() - 1]));
                crate::tipos::lema_ids_alocacoes_push(
                    retem_antes.skip(retem_ini.len() as int),
                    retem@[retem@.len() - 1],
                );
                assert(vistas(usados@) =~= vistas(usados_ini) + ids_de_alocacoes(
                    retem@.skip(retem_ini.len() as int),
                ));
                crate::contagem::lema_cresce_transitivo(
                    cont_ini,
                    cont_antes,
                    *contagens,
                    (conta_novos - 1) as nat,
                    1,
                );
                crate::contagem::lema_nao_diminui_transitivo(cont_ini, cont_antes, *contagens);
                crate::contagem::lema_folga_apos(
                    cont_antes,
                    *contagens,
                    (quota - (conta_novos - 1)) as nat,
                    1,
                );
                if sem_repeticao(vistas(usados_ini)) {
                    assert forall|i2: int, j2: int|
                        0 <= i2 < j2 < vistas(usados@).len() implies vistas(usados@)[i2] != vistas(
                        usados@,
                    )[j2] by {
                        if j2 == vistas(usados@).len() - 1 {
                            assert(vistas(usados@)[j2] == utilizadores@[ui as int].id@);
                            assert(vistas(usados_antes).contains(vistas(usados_antes)[i2]));
                        }
                    }
                }
            }
        }
        proof {
            if conta_novos != quota {
                assert forall|m2: int| 0 <= m2 < m + 1 implies vistas(usados@).contains(
                    utilizadores@[#[trigger] ordem@[m2] as int].id@,
                ) by {
                    if m2 < m as int {
                        let w = choose|w: int|
                            0 <= w < vistas(usados_volta).len() && vistas(usados_volta)[w]
                                == utilizadores@[ordem@[m2] as int].id@;
                        assert(vistas(usados@)[w] == utilizadores@[ordem@[m2] as int].id@);
                    } else {
                        if presente {
                            assert(vistas(usados_volta).contains(utilizadores@[ui as int].id@));
                            let w2 = choose|w2: int|
                                0 <= w2 < vistas(usados_volta).len() && vistas(usados_volta)[w2]
                                    == utilizadores@[ui as int].id@;
                            assert(vistas(usados@)[w2] == utilizadores@[ui as int].id@);
                        } else {
                            assert(vistas(usados@)[vistas(usados@).len() - 1]
                                == utilizadores@[ui as int].id@);
                        }
                    }
                }
            }
        }
        m = m + 1;
    }
    proof {
        if conta_novos < quota {
            assert forall|j2: int|
                0 <= j2 < utilizadores@.len() && retem_elegivel(
                    #[trigger] utilizadores@[j2],
                    ano,
                    exclusao@,
                    punicoes@,
                    usados_ini,
                ) implies vistas(usados@).contains(utilizadores@[j2].id@) by {
                assert(ordem@.contains(j2 as usize));
                let w = choose|w: int| 0 <= w < ordem@.len() && ordem@[w] == j2 as usize;
                assert(vistas(usados@).contains(utilizadores@[ordem@[w] as int].id@));
            }
        }
    }
}

/// The assignable candidate at the first assignable position is unique: any
/// position that is assignable with none assignable before it is that one.
proof fn lema_primeiro_apto_unico(
    us: Seq<User>,
    cand: Seq<usize>,
    genero: Genero,
    usados: Seq<String>,
    p: int,
)
    requires
        0 <= p < cand.len(),
        apto(us[cand[p] as int], genero, usados),
        forall|q: int| 0 <= q < p ==> !apto(us[#[trigger] cand[q] as int], genero, usados),
    ensures
        forall|pp: int|
            #![trigger cand[pp]]
            0 <= pp < cand.len() && apto(us[cand[pp] as int], genero, usados) && (forall|q: int|
                0 <= q < pp ==> !apto(us[#[trigger] cand[q] as int], genero, usados)) ==> pp == p,
{
    assert forall|pp: int|
        #![trigger cand[pp]]
        0 <= pp < cand.len() && apto(us[cand[pp] as int], genero, usados) && (forall|q: int|
            0 <= q < pp ==> !apto(us[#[trigger] cand[q] as int], genero, usados)) implies pp
        == p by {
        if pp < p {
            assert(!apto(us[cand[pp] as int], genero, usados));
        }
        if pp > p {
            assert(!apto(us[cand[p] as int], genero, usados));
        }
    }
}

/// The number of slot labels a post defines over every routine type: an
/// upper bound on its slots on any one day.
pub open spec fn cap_posto(p: Posto) -> nat {
    p.horarios_rn@.len() + p.horarios_rd@.len() + p.horarios_udrd@.len() + p.horarios_er@.len()
}

/// The bound summed over a post list.
pub open spec fn cap_postos(ps: Seq<Posto>) -> nat
    decreases ps.len(),
{
    if ps.len() == 0 {
        0
    } else {
        cap_posto(ps[0]) + cap_postos(ps.drop_first())
    }
}

/// How many counter increments one generated day can make at most: every
/// post slot plus the eight standby places.
pub open spec fn cap_dia(ps: Seq<Posto>) -> nat {
    cap_postos(ps) + 8
}

/// Splitting the post-capacity sum at `i`.
pub proof fn lema_cap_postos_salta(ps: Seq<Posto>, i: int)
    requires
        0 <= i < ps.len(),
    ensures
        cap_postos(ps.skip(i)) == cap_posto(ps[i]) + cap_postos(ps.skip(i + 1)),
{
    assert(ps.skip(i).drop_first() =~= ps.skip(i + 1));
    assert(ps.skip(i)[0] == ps[i]);
}

/// A day's slots for one routine type never exceed the post's bound.
pub proof fn lema_horarios_dentro_cap(p: Posto, tipo: TipoServico)
    ensures
        p.spec_horarios(tipo).len() <= cap_posto(p),
{
}

/// The roster produced for one day, with the list of everyone used on it,
/// which the next day inherits as its fatigue exclusion.
pub struct DiaProduzido {
    pub escala: EscalaDiaria,
    pub usados: Vec<String>,
}

/// The slot that could not be filled, aborting the run.
#[derive(Clone, Debug)]
pub struct ErroGeracao {
    pub posto: String,
    pub horario: String,
    pub data: i64,
}

/// Fills every slot of one post for the day, in slot order, or fails naming
/// the first slot nobody can stand.
#[verifier::rlimit(100)]
fn alocar_posto(
    data: i64,
    tipo_dia: TipoServico,
    adiar: bool,
    especial: bool,
    utilizadores: &Vec<User>,
    posto: &Posto,
    config: &ConfiguracaoEscala,
    exclusao: &Vec<String>,
    usados: &mut Vec<String>,
    contagens: &mut Contagem,
    punicoes: &mut Vec<Punicao>,
    dividas: &DividasAtivas,
    pagas: &mut Vec<DividaPaga>,
) -> (r: Result<Vec<AlocacaoHorario>, ErroGeracao>)
    requires
        forall|i: int| 0 <= i < old(punicoes)@.len() ==> (#[trigger] old(punicoes)@[i]).bem_formada(),
        crate::contagem::folga(*old(contagens), posto.spec_horarios(tipo_dia).len()),
    ensures
        crate::contagem::cresce_no_maximo(
            *old(contagens),
            *final(contagens),
            posto.spec_horarios(tipo_dia).len(),
        ),
        crate::contagem::nao_diminui(*old(contagens), *final(contagens)),
        final(punicoes)@.len() == old(punicoes)@.len(),
        forall|i: int|
            0 <= i < final(punicoes)@.len() ==> {
                let antes = old(punicoes)@[i];
                let depois = #[trigger] final(punicoes)@[i];
                &&& depois.user_id == antes.user_id
                &&& depois.total_a_cumprir == antes.total_a_cumprir
                &&& antes.ja_cumpridos <= depois.ja_cumpridos
                &&& depois.bem_formada()
            },
        old(pagas)@.len() <= final(pagas)@.len(),
        forall|k: int| 0 <= k < old(pagas)@.len() ==> final(pagas)@[k] == old(pagas)@[k],
        match r {
            Ok(hs) => {
                &&& hs@.len() == posto.spec_horarios(tipo_dia).len()
                &&& (forall|h: int|
                    0 <= h < hs@.len() ==> (#[trigger] hs@[h]).horario == posto.spec_horarios(
                        tipo_dia,
                    )[h])
                &&& vistas(final(usados)@) == vistas(old(usados)@) + ids_de_horarios(hs@)
                &&& (sem_repeticao(vistas(old(usados)@)) ==> sem_repeticao(vistas(final(usados)@)))
                &&& (forall|x: Seq<char>|
                    vistas(final(usados)@).contains(x) ==> vistas(old(usados)@).contains(x)
                        || !vistas(exclusao@).contains(x))
                &&& (forall|h: int|
                    0 <= h < hs@.len() ==> (exists|ui: int|
                        0 <= ui < utilizadores@.len() && (#[trigger] utilizadores@[ui]).id@
                            == (#[trigger] hs@[h]).alocacao.user_id@ && apto_ao_posto(
                            utilizadores@[ui],
                            *posto,
                        )))
            },
            Err(e) => e.data == data && e.posto@ == posto.nome@ && (exists|h: int|
                0 <= h < posto.spec_horarios(tipo_dia).len() && e.horario@
                    == (#[trigger] posto.spec_horarios(tipo_dia)[h])@),
        },
{
    let ghost cont0 = *contagens;
    let ghost pun0 = punicoes@;
    let ghost pagas0 = pagas@;
    let ghost usados_ini = usados@;
    let desc = !matches!(tipo_dia, TipoServico::RN);
    let tc = if matches!(tipo_dia, TipoServico::RN) {
        TipoServico::RN
    } else {
        TipoServico::RD
    };
    let candidatos = candidatos_ao_posto(utilizadores, posto, exclusao, contagens, tc, desc);
    let punir_aqui = especial && contem_str(&config.postos_punicao, &posto.nome);
    let n_horarios = posto.num_horarios(tipo_dia);
    let mut horarios_alocados: Vec<AlocacaoHorario> = Vec::new();
    let mut h: usize = 0;
    while h < n_horarios
        invariant
            cont0 == *old(contagens),
            pun0 == old(punicoes)@,
            pagas0 == old(pagas)@,
            usados_ini == old(usados)@,
            0 <= h <= n_horarios,
            n_horarios == posto.spec_horarios(tipo_dia).len(),
            horarios_alocados@.len() == h,
            forall|h2: int|
                0 <= h2 < h ==> (#[trigger] horarios_alocados@[h2]).horario == posto.spec_horarios(
                    tipo_dia,
                )[h2],
            vistas(usados@) == vistas(usados_ini) + ids_de_horarios(horarios_alocados@),
            sem_repeticao(vistas(usados_ini)) ==> sem_repeticao(vistas(usados@)),
            forall|x: Seq<char>|
                vistas(usados@).contains(x) ==> vistas(usados_ini).contains(x) || !vistas(
                    exclusao@,
                ).contains(x),
            forall|h2: int|
                0 <= h2 < horarios_alocados@.len() ==> (exists|ui: int|
                    0 <= ui < utilizadores@.len() && (#[trigger] utilizadores@[ui]).id@
                        == (#[trigger] horarios_alocados@[h2]).alocacao.user_id@ && apto_ao_posto(
                        utilizadores@[ui],
                        *posto,
                    )),
            forall|k: int|
                0 <= k < candidatos@.len() ==> (#[trigger] candidatos@[k]) < utilizadores@.len()
                    && pre_elegivel(utilizadores@[candidatos@[k] as int], *posto, exclusao@),
            crate::contagem::folga(*contagens, (n_horarios - h) as nat),
            crate::contagem::cresce_no_maximo(cont0, *contagens, h as nat),
            crate::contagem::nao_diminui(cont0, *contagens),
            punicoes@.len() == pun0.len(),
            forall|i: int|
                0 <= i < punicoes@.len() ==> {
                    let antes = pun0[i];
                    let depois = #[trigger] punicoes@[i];
                    &&& depois.user_id == antes.user_id
                    &&& depois.total_a_cumprir == antes.total_a_cumprir
                    &&& antes.ja_cumpridos <= depois.ja_cumpridos
                    &&& depois.bem_formada()
                },
            pagas0.len() <= pagas@.len(),
            forall|k: int| 0 <= k < pagas0.len() ==> pagas@[k] == pagas0[k],
        decreases n_horarios - h,
    {
        let ghost usados_antes = usados@;
        let ghost cont_antes = *contagens;
        proof {
            crate::contagem::lema_folga_monotona(*contagens, (n_horarios - h) as nat, 1);
        }
        match alocar_horario(
            utilizadores,
            posto,
            &candidatos,
            tipo_dia,
            adiar,
            punir_aqui,
            exclusao,
            usados,
            contagens,
            punicoes,
            dividas,
            pagas,
        ) {
            Some(a) => {
                let rotulo = posto.horario(tipo_dia, h);
                let ghost hor_antes = horarios_alocados@;
                let entrada = AlocacaoHorario { horario: rotulo.clone(), alocacao: a };
                horarios_alocados.push(entrada);
                proof {
                    let a_id = horarios_alocados@.last().alocacao.user_id;
                    crate::texto::lema_vistas_push(usados_antes, a_id);
                    assert(horarios_alocados@ =~= hor_antes.push(horarios_alocados@.last()));
                    crate::tipos::lema_ids_horarios_push(hor_antes, horarios_alocados@.last());
                    assert((vistas(usados_ini) + ids_de_horarios(hor_antes)).push(a_id@)
                        =~= vistas(usados_ini) + ids_de_horarios(hor_antes).push(a_id@));
                    assert(vistas(usados@) =~= vistas(usados_ini) + ids_de_horarios(
                        horarios_alocados@,
                    ));
                    if sem_repeticao(vistas(usados_ini)) {
                        assert forall|i2: int, j2: int|
                            0 <= i2 < j2 < vistas(usados@).len() implies vistas(usados@)[i2]
                            != vistas(usados@)[j2] by {
                            if j2 == vistas(usados@).len() - 1 {
                                assert(vistas(usados_antes).contains(vistas(usados_antes)[i2]));
                            }
                        }
                    }
                    crate::contagem::lema_cresce_transitivo(
                        cont0,
                        cont_antes,
                        *contagens,
                        h as nat,
                        1,
                    );
                    crate::contagem::lema_nao_diminui_transitivo(cont0, cont_antes, *contagens);
                    crate::contagem::lema_folga_apos(
                        cont_antes,
                        *contagens,
                        (n_horarios - h) as nat,
                        1,
                    );
                }
            },
            None => {
                proof {
                    crate::contagem::lema_cresce_monotono(
                        cont0,
                        *contagens,
                        h as nat,
                        posto.spec_horarios(tipo_dia).len(),
                    );
                }
                let erro = ErroGeracao {
                    posto: posto.nome.clone(),
                    horario: posto.horario(tipo_dia, h).clone(),
                    data,
                };
                proof {
                    assert(erro.horario@ == posto.spec_horarios(tipo_dia)[h as int]@);
                }
                return Err(erro);
            },
        }
        h = h + 1;
    }
    Ok(horarios_alocados)
}

/// Generates the roster of one day, §4.3 to §4.5: every post slot of the
/// day's routine type is filled or the day fails naming the empty slot; then
/// the standby quotas (two third-years, two second-years, four first-years)
/// are filled.  No person appears twice on the produced day.
#[verifier::loop_isolation(false)]
#[verifier::rlimit(60)]
pub fn gerar_dia(
    data: i64,
    tipo_dia: TipoServico,
    adiar: bool,
    utilizadores: &Vec<User>,
    postos: &Vec<Posto>,
    config: &ConfiguracaoEscala,
    exclusao: &Vec<String>,
    contagens: &mut Contagem,
    punicoes: &mut Vec<Punicao>,
    dividas: &DividasAtivas,
    pagas: &mut Vec<DividaPaga>,
) -> (r: Result<DiaProduzido, ErroGeracao>)
    requires
        forall|i: int| 0 <= i < old(punicoes)@.len() ==> (#[trigger] old(punicoes)@[i]).bem_formada(),
        crate::contagem::folga(*old(contagens), cap_dia(postos@)),
    ensures
        crate::contagem::cresce_no_maximo(*old(contagens), *final(contagens), cap_dia(postos@)),
        crate::contagem::nao_diminui(*old(contagens), *final(contagens)),
        final(punicoes)@.len() == old(punicoes)@.len(),
        forall|i: int|
            0 <= i < final(punicoes)@.len() ==> {
                let antes = old(punicoes)@[i];
                let depois = #[trigger] final(punicoes)@[i];
                &&& depois.user_id == antes.user_id
                &&& depois.total_a_cumprir == antes.total_a_cumprir
                &&& antes.ja_cumpridos <= depois.ja_cumpridos
                &&& depois.bem_formada()
            },
        old(pagas)@.len() <= final(pagas)@.len(),
        forall|k: int| 0 <= k < old(pagas)@.len() ==> final(pagas)@[k] == old(pagas)@[k],
        match r {
            Ok(d) => {
                &&& d.escala.tipo_dia == tipo_dia
                &&& d.escala.sem_pessoa_repetida()
                &&& vistas(d.usados@) == d.escala.todos_ids()
                &&& (forall|x: Seq<char>|
                    d.escala.todos_ids().contains(x) ==> !vistas(exclusao@).contains(x))
                &&& (tipo_dia is Retem ==> d.escala.escala@.len() == 0)
                &&& (!(tipo_dia is Retem) ==> d.escala.escala@.len() == postos@.len() && (forall|
                    i: int,
                |
                    0 <= i < postos@.len() ==> (#[trigger] d.escala.escala@[i]).posto == postos@[i].nome
                        && d.escala.escala@[i].horarios@.len() == postos@[i].spec_horarios(
                        tipo_dia,
                    ).len() && (forall|h: int|
                        0 <= h < d.escala.escala@[i].horarios@.len()
                            ==> (#[trigger] d.escala.escala@[i].horarios@[h]).horario
                            == postos@[i].spec_horarios(tipo_dia)[h]) && (forall|h: int|
                        0 <= h < d.escala.escala@[i].horarios@.len() ==> (exists|ui: int|
                            0 <= ui < utilizadores@.len() && (#[trigger] utilizadores@[ui]).id@
                                == (#[trigger] d.escala.escala@[i].horarios@[h]).alocacao.user_id@
                                && apto_ao_posto(utilizadores@[ui], postos@[i])))))
                &&& d.escala.retem@.len() <= 8
            },
            Err(e) => e.data == data && (exists|pi: int, h: int|
                0 <= pi < postos@.len() && (#[trigger] postos@[pi]).nome@ == e.posto@ && 0 <= h
                    < postos@[pi].spec_horarios(tipo_dia).len() && e.horario@
                    == (#[trigger] postos@[pi].spec_horarios(tipo_dia)[h])@),
        },
{
    let ghost cont0 = *contagens;
    let ghost pun0 = punicoes@;
    let ghost pagas0 = pagas@;
    let desc = !matches!(tipo_dia, TipoServico::RN);
    let tc = if matches!(tipo_dia, TipoServico::RN) {
        TipoServico::RN
    } else {
        TipoServico::RD
    };
    let especial = match tipo_dia {
        TipoServico::RD | TipoServico::UDRD | TipoServico::ER => true,
        _ => false,
    };
    let mut usados: Vec<String> = Vec::new();
    let mut escala: Vec<PostoEscalado> = Vec::new();
    let e_retem = matches!(tipo_dia, TipoServico::Retem);
    proof {
        assert(postos@.skip(0) =~= postos@);
        assert(postos@.take(0) =~= Seq::<Posto>::empty());
    }
    let mut pi: usize = 0;
    while !e_retem && pi < postos.len()
        invariant
            e_retem ==> pi == 0 && escala@.len() == 0 && usados@.len() == 0,
            0 <= pi <= postos@.len(),
            !e_retem ==> escala@.len() == pi,
            forall|i: int|
                0 <= i < escala@.len() ==> (#[trigger] escala@[i]).posto == postos@[i].nome
                    && escala@[i].horarios@.len() == postos@[i].spec_horarios(tipo_dia).len() && (
                forall|h: int|
                    0 <= h < escala@[i].horarios@.len() ==> (#[trigger] escala@[i].horarios@[h]).horario
                        == postos@[i].spec_horarios(tipo_dia)[h]) && (forall|h: int|
                    0 <= h < escala@[i].horarios@.len() ==> (exists|ui: int|
                        0 <= ui < utilizadores@.len() && (#[trigger] utilizadores@[ui]).id@
                            == (#[trigger] escala@[i].horarios@[h]).alocacao.user_id@
                            && apto_ao_posto(utilizadores@[ui], postos@[i]))),
            vistas(usados@) == ids_de_postos(escala@),
            sem_repeticao(vistas(usados@)),
            forall|x: Seq<char>|
                vistas(usados@).contains(x) ==> !vistas(exclusao@).contains(x),
            crate::contagem::folga(*contagens, cap_postos(postos@.skip(pi as int)) + 8),
            crate::contagem::cresce_no_maximo(cont0, *contagens, cap_postos(postos@.take(pi as int))),
            crate::contagem::nao_diminui(cont0, *contagens),
            punicoes@.len() == pun0.len(),
            forall|i: int|
                0 <= i < punicoes@.len() ==> {
                    let antes = pun0[i];
                    let depois = #[trigger] punicoes@[i];
                    &&& depois.user_id == antes.user_id
                    &&& depois.total_a_cumprir == antes.total_a_cumprir
                    &&& antes.ja_cumpridos <= depois.ja_cumpridos
                    &&& depois.bem_formada()
                },
            pagas0.len() <= pagas@.len(),
            forall|k: int| 0 <= k < pagas0.len() ==> pagas@[k] == pagas0[k],
        decreases postos@.len() - pi,
    {
        let posto = &postos[pi];
        proof {
            lema_cap_postos_salta(postos@, pi as int);
            lema_horarios_dentro_cap(postos@[pi as int], tipo_dia);
            crate::contagem::lema_folga_monotona(
                *contagens,
                cap_postos(postos@.skip(pi as int)) + 8,
                postos@[pi as int].spec_horarios(tipo_dia).len(),
            );
        }
        let ghost cont_antes_posto = *contagens;
        let ghost usados_antes_posto = usados@;
        let horarios_alocados = match alocar_posto(
            data,
            tipo_dia,
            adiar,
            especial,
            utilizadores,
            posto,
            config,
            exclusao,
            &mut usados,
            contagens,
            punicoes,
            dividas,
            pagas,
        ) {
            Ok(hs) => hs,
            Err(e) => {
                proof {
                    assert(postos@[pi as int].nome@ == e.posto@);
                    lema_cap_take_skip(postos@, pi as int);
                    lema_cap_postos_salta(postos@, pi as int);
                    lema_horarios_dentro_cap(postos@[pi as int], tipo_dia);
                    crate::contagem::lema_cresce_transitivo(
                        cont0,
                        cont_antes_posto,
                        *contagens,
                        cap_postos(postos@.take(pi as int)),
                        postos@[pi as int].spec_horarios(tipo_dia).len(),
                    );
                    crate::contagem::lema_cresce_monotono(
                        cont0,
                        *contagens,
                        (cap_postos(postos@.take(pi as int)) + postos@[pi as int].spec_horarios(
                            tipo_dia,
                        ).len()) as nat,
                        cap_dia(postos@),
                    );
                    crate::contagem::lema_nao_diminui_transitivo(
                        cont0,
                        cont_antes_posto,
                        *contagens,
                    );
                }
                return Err(e);
            },
        };
        let n_horarios = posto.num_horarios(tipo_dia);
        let ghost escala_antes = escala@;
        escala.push(PostoEscalado { posto: posto.nome.clone(), horarios: horarios_alocados });
        proof {
            assert(escala@ =~= escala_antes.push(escala@.last()));
            crate::tipos::lema_ids_postos_push(escala_antes, escala@.last());
            assert(vistas(usados@) =~= ids_de_postos(escala@));
            lema_cap_take_passo(postos@, pi as int);
            crate::contagem::lema_cresce_transitivo(
                cont0,
                cont_antes_posto,
                *contagens,
                cap_postos(postos@.take(pi as int)),
                postos@[pi as int].spec_horarios(tipo_dia).len(),
            );
            crate::contagem::lema_cresce_monotono(
                cont0,
                *contagens,
                (cap_postos(postos@.take(pi as int)) + n_horarios) as nat,
                cap_postos(postos@.take(pi as int + 1)),
            );
            crate::contagem::lema_nao_diminui_transitivo(cont0, cont_antes_posto, *contagens);
            crate::contagem::lema_folga_apos(
                cont_antes_posto,
                *contagens,
                cap_postos(postos@.skip(pi as int)) + 8,
                postos@[pi as int].spec_horarios(tipo_dia).len(),
            );
            crate::contagem::lema_folga_monotona(
                *contagens,
                ((cap_postos(postos@.skip(pi as int)) + 8) - postos@[pi as int].spec_horarios(
                    tipo_dia,
                ).len()) as nat,
                cap_postos(postos@.skip(pi as int + 1)) + 8,
            );
        }
        pi = pi + 1;
    }
    proof {
        if !e_retem {
            assert(postos@.skip(pi as int) =~= Seq::<Posto>::empty());
        } else {
            assert(postos@.skip(0) =~= postos@);
            crate::contagem::lema_folga_monotona(*contagens, cap_dia(postos@), 8);
        }
        crate::contagem::lema_folga_monotona(
            *contagens,
            cap_postos(postos@.skip(pi as int)) + 8,
            8,
        );
    }
    let mut retem: Vec<Alocacao> = Vec::new();
    let ghost usados_apos_postos = usados@;
    let ghost cont_apos_postos = *contagens;
    preencher_retem_ano(3, 2, utilizadores, exclusao, punicoes, &mut usados, contagens, &mut retem);
    let ghost u1 = usados@;
    let ghost c1 = *contagens;
    let ghost r1 = retem@;
    proof {
        crate::contagem::lema_folga_apos(cont_apos_postos, *contagens, 8, 2);
    }
    preencher_retem_ano(2, 2, utilizadores, exclusao, punicoes, &mut usados, contagens, &mut retem);
    let ghost u2 = usados@;
    let ghost c2 = *contagens;
    let ghost r2 = retem@;
    proof {
        crate::contagem::lema_folga_apos(c1, *contagens, 6, 2);
    }
    preencher_retem_ano(1, 4, utilizadores, exclusao, punicoes, &mut usados, contagens, &mut retem);
    proof {
        let rfin = retem@;
        assert(r1 =~= rfin.take(r1.len() as int)) by {
            assert(forall|k: int| 0 <= k < r1.len() ==> rfin[k] == r1[k]);
        }
        assert(r2 =~= rfin.take(r2.len() as int)) by {
            assert(forall|k: int| 0 <= k < r2.len() ==> rfin[k] == r2[k]);
        }
        assert(r1.skip(0) =~= r1);
        // stitch the three standby appends into one
        crate::tipos::lema_ids_alocacoes_concat(r1, r2.skip(r1.len() as int));
        assert(r1 + r2.skip(r1.len() as int) =~= r2);
        crate::tipos::lema_ids_alocacoes_concat(r2, rfin.skip(r2.len() as int));
        assert(r2 + rfin.skip(r2.len() as int) =~= rfin);
        assert(vistas(usados@) =~= vistas(usados_apos_postos) + ids_de_alocacoes(rfin));
        crate::contagem::lema_cresce_transitivo(cont_apos_postos, c1, c2, 2, 2);
        crate::contagem::lema_cresce_transitivo(cont_apos_postos, c2, *contagens, 4, 4);
        crate::contagem::lema_cresce_transitivo(
            cont0,
            cont_apos_postos,
            *contagens,
            cap_postos(postos@),
            8,
        );
        crate::contagem::lema_nao_diminui_transitivo(cont_apos_postos, c1, c2);
        crate::contagem::lema_nao_diminui_transitivo(cont_apos_postos, c2, *contagens);
        crate::contagem::lema_nao_diminui_transitivo(cont0, cont_apos_postos, *contagens);
    }
    let dia = EscalaDiaria { tipo_dia, escala, retem };
    proof {
        assert(dia.todos_ids() == ids_de_postos(dia.escala@) + ids_de_alocacoes(dia.retem@));
        assert(vistas(usados@) == dia.todos_ids());
    }
    Ok(DiaProduzido { escala: dia, usados })
}

/// Capacity of a take-prefix plus the rest bounds the whole.
proof fn lema_cap_take_passo(ps: Seq<Posto>, i: int)
    requires
        0 <= i < ps.len(),
    ensures
        cap_postos(ps.take(i + 1)) == cap_postos(ps.take(i)) + cap_posto(ps[i]),
    decreases i,
{
    if i == 0 {
        assert(ps.take(1).drop_first() =~= ps.take(0));
        assert(ps.take(1)[0] == ps[0]);
        assert(cap_postos(ps.take(0)) == 0);
    } else {
        lema_cap_take_passo(ps.drop_first(), i - 1);
        assert(ps.take(i + 1).drop_first() =~= ps.drop_first().take(i));
        assert(ps.take(i).drop_first() =~= ps.drop_first().take(i - 1));
        assert(ps.take(i + 1)[0] == ps[0]);
        assert(ps.take(i)[0] == ps[0]);
        assert(ps.drop_first()[i - 1] == ps[i]);
    }
}

/// A take-prefix never exceeds the whole capacity.
proof fn lema_cap_take_skip(ps: Seq<Posto>, i: int)
    requires
        0 <= i <= ps.len(),
    ensures
        cap_postos(ps.take(i)) + cap_postos(ps.skip(i)) == cap_postos(ps),
    decreases i,
{
    if i == 0 {
        assert(ps.take(0) =~= Seq::<Posto>::empty());
        assert(ps.skip(0) =~= ps);
    } else {
        lema_cap_take_skip(ps, i - 1);
        lema_cap_take_passo(ps, i - 1);
        lema_cap_postos_salta(ps, i - 1);
    }
}

/// No two requested days name the same date.
pub open spec fn datas_distintas(ds: Seq<DiaRotina>) -> bool {
    forall|i: int, j: int| 0 <= i < j < ds.len() ==> ds[i].data != ds[j].data
}

/// Sorts the requested days by date.  The result holds exactly the given
/// days; distinct input dates come out strictly ascending.
#[verifier::loop_isolation(false)]
pub fn ordenar_dias(entrada: Vec<DiaRotina>) -> (r: Vec<DiaRotina>)
    ensures
        r@.to_multiset() == entrada@.to_multiset(),
        r@.len() == entrada@.len(),
        forall|i: int, j: int| 0 <= i < j < r@.len() ==> r@[i].data <= r@[j].data,
        datas_distintas(entrada@) ==> datas_distintas(r@),
{
    broadcast use group_to_multiset_ensures;

    let ghost dist = datas_distintas(entrada@);
    let mut restantes = entrada;
    let mut saida: Vec<DiaRotina> = Vec::new();
    while restantes.len() > 0
        invariant
            saida@.to_multiset().add(restantes@.to_multiset()) =~= entrada@.to_multiset(),
            saida@.len() + restantes@.len() == entrada@.len(),
            forall|i: int, j: int| 0 <= i < j < saida@.len() ==> saida@[i].data <= saida@[j].data,
            forall|i: int, j: int|
                #![trigger saida@[i], restantes@[j]]
                0 <= i < saida@.len() && 0 <= j < restantes@.len() ==> saida@[i].data
                    <= restantes@[j].data,
            dist ==> datas_distintas(saida@),
            dist ==> datas_distintas(restantes@),
            dist ==> (forall|i: int, j: int|
                #![trigger saida@[i], restantes@[j]]
                0 <= i < saida@.len() && 0 <= j < restantes@.len() ==> saida@[i].data
                    != restantes@[j].data),
        decreases restantes@.len(),
    {
        let mut melhor: usize = 0;
        let mut m: usize = 1;
        while m < restantes.len()
            invariant
                0 <= melhor < m <= restantes@.len(),
                forall|k: int|
                    0 <= k < m ==> restantes@[melhor as int].data <= (#[trigger] restantes@[k]).data,
            decreases restantes@.len() - m,
        {
            if restantes[m].data < restantes[melhor].data {
                melhor = m;
            }
            m = m + 1;
        }
        let escolhido = restantes[melhor];
        let ghost antes_rest = restantes@;
        restantes.remove(melhor);
        saida.push(escolhido);
        proof {
            assert(saida@.to_multiset().add(restantes@.to_multiset()) =~= entrada@.to_multiset());
            assert(forall|j: int|
                0 <= j < restantes@.len() ==> #[trigger] restantes@[j] == (if j < melhor {
                    antes_rest[j]
                } else {
                    antes_rest[j + 1]
                }));
        }
    }
    saida
}

/// The ids of everyone on the unavailability list, date disregarded: during
/// a generation run the whole list is excluded.
pub fn ids_indisponiveis(lista: &Vec<Indisponibilidade>) -> (r: Vec<String>)
    ensures
        r@.len() == lista@.len(),
        forall|k: int| 0 <= k < r@.len() ==> r@[k]@ == lista@[k].user_id@,
{
    let mut r: Vec<String> = Vec::new();
    let mut i: usize = 0;
    while i < lista.len()
        invariant
            0 <= i <= lista@.len(),
            r@.len() == i,
            forall|k: int| 0 <= k < i ==> r@[k]@ == lista@[k].user_id@,
        decreases lista@.len() - i,
    {
        r.push(lista[i].user_id.clone());
        i = i + 1;
    }
    r
}

/// One list after the other, as a fresh list.
pub fn juntar(a: &Vec<String>, b: &Vec<String>) -> (r: Vec<String>)
    ensures
        vistas(r@) == vistas(a@) + vistas(b@),
{
    let mut r: Vec<String> = Vec::new();
    let mut i: usize = 0;
    while i < a.len()
        invariant
            0 <= i <= a@.len(),
            r@.len() == i,
            forall|k: int| 0 <= k < i ==> r@[k]@ == a@[k]@,
        decreases a@.len() - i,
    {
        r.push(a[i].clone());
        i = i + 1;
    }
    let mut j: usize = 0;
    while j < b.len()
        invariant
            0 <= j <= b@.len(),
            r@.len() == a@.len() + j,
            forall|k: int| 0 <= k < a@.len() ==> r@[k]@ == a@[k]@,
            forall|k: int| 0 <= k < j ==> r@[a@.len() + k]@ == b@[k]@,
        decreases b@.len() - j,
    {
        r.push(b[j].clone());
        j = j + 1;
    }
    proof {
        assert(vistas(r@) =~= vistas(a@) + vistas(b@));
    }
    r
}

/// Whether the day at `i` of the sorted window defers final punishment
/// units: the first day of a special-routine cluster that continues on the
/// next day.
pub open spec fn spec_adiar(ds: Seq<DiaRotina>, i: int) -> bool {
    &&& ds[i].tipo.spec_especial()
    &&& (i == 0 || !ds[i - 1].tipo.spec_especial())
    &&& (i + 1 < ds.len() && ds[i + 1].tipo.spec_especial())
}

/// One generated day of the run.
pub struct DiaGerado {
    pub data: i64,
    pub escala: EscalaDiaria,
}

/// Everything a generation run produces: one roster per day in date order,
/// the updated counters, the settled ledger, the advanced punishment queue,
/// and the first unfillable slot if the run aborted.  On an abort the days
/// before the failing one are still present, matching the partial files the
/// stores would hold; counters and ledgers of an aborted run are not meant
/// to be persisted.
pub struct Geracao {
    pub escalas: Vec<DiaGerado>,
    pub contagens: Contagem,
    pub dividas: DividasAtivas,
    pub punicoes: Vec<Punicao>,
    pub erro: Option<ErroGeracao>,
}

/// A generated day conforms to the catalogue: every post appears under its
/// name with exactly its slot labels for the day's routine, and every slot
/// holder satisfies the post's class-year, gender and role constraints.
#[verifier::opaque]
pub open spec fn dia_conforme(e: EscalaDiaria, postos: Seq<Posto>, us: Seq<User>) -> bool {
    &&& e.escala@.len() == postos.len()
    &&& (forall|i: int|
        0 <= i < postos.len() ==> (#[trigger] e.escala@[i]).posto == postos[i].nome
            && e.escala@[i].horarios@.len() == postos[i].spec_horarios(e.tipo_dia).len() && (forall|
            h: int,
        |
            0 <= h < e.escala@[i].horarios@.len() ==> (#[trigger] e.escala@[i].horarios@[h]).horario
                == postos[i].spec_horarios(e.tipo_dia)[h]) && (forall|h: int|
            0 <= h < e.escala@[i].horarios@.len() ==> (exists|ui: int|
                0 <= ui < us.len() && (#[trigger] us[ui]).id@
                    == (#[trigger] e.escala@[i].horarios@[h]).alocacao.user_id@ && apto_ao_posto(
                    us[ui],
                    postos[i],
                ))))
}

/// Nobody on a produced day served on the day generated before it: the
/// rolling fatigue exclusion of §4.1.
#[verifier::opaque]
pub open spec fn dias_sem_fadiga(escalas: Seq<DiaGerado>) -> bool {
    forall|k: int, x: Seq<char>|
        #![trigger escalas[k].escala.todos_ids().contains(x)]
        1 <= k < escalas.len() && escalas[k].escala.todos_ids().contains(x)
            ==> !escalas[k - 1].escala.todos_ids().contains(x)
}

/// Nobody on the unavailability list was assigned on any produced day.
#[verifier::opaque]
pub open spec fn dias_sem_indisponiveis(
    escalas: Seq<DiaGerado>,
    indis: Seq<Indisponibilidade>,
) -> bool {
    forall|k: int, m: int|
        0 <= k < escalas.len() && 0 <= m < indis.len()
            ==> !(#[trigger] escalas[k]).escala.todos_ids().contains(
            (#[trigger] indis[m]).user_id@,
        )
}

/// An element of either half is an element of the concatenation.
proof fn lema_contem_em_concat(a: Seq<Seq<char>>, b: Seq<Seq<char>>, x: Seq<char>)
    ensures
        a.contains(x) ==> (a + b).contains(x),
        b.contains(x) ==> (a + b).contains(x),
{
    if a.contains(x) {
        let w = choose|w: int| 0 <= w < a.len() && a[w] == x;
        assert((a + b)[w] == x);
    }
    if b.contains(x) {
        let w = choose|w: int| 0 <= w < b.len() && b[w] == x;
        assert((a + b)[a.len() + w] == x);
    }
}

/// Runs the generator over the requested window, §4.5: days are taken in
/// ascending date order; each day's roster is generated with the previous
/// day's duty holders excluded for fatigue and the whole unavailability list
/// excluded; after the window, the debts settled during the run are removed
/// from the ledger, each at most once.
#[verifier::spinoff_prover]
#[verifier::loop_isolation(false)]
#[verifier::rlimit(100)]
pub fn gerar_nova_escala(
    dias: Vec<DiaRotina>,
    utilizadores: &Vec<User>,
    postos: &Vec<Posto>,
    contagens: Contagem,
    dividas: DividasAtivas,
    punicoes: Vec<Punicao>,
    config: &ConfiguracaoEscala,
    indisponibilidades: &Vec<Indisponibilidade>,
) -> (r: Geracao)
    requires
        datas_distintas(dias@),
        forall|i: int| 0 <= i < punicoes@.len() ==> (#[trigger] punicoes@[i]).bem_formada(),
        crate::contagem::folga(contagens, (dias@.len() * cap_dia(postos@)) as nat),
    ensures
        forall|k: int|
            0 <= k < r.escalas@.len() ==> (#[trigger] r.escalas@[k]).escala.sem_pessoa_repetida(),
        forall|k: int|
            0 <= k < r.escalas@.len() && !((#[trigger] r.escalas@[k]).escala.tipo_dia is Retem)
                ==> dia_conforme(r.escalas@[k].escala, postos@, utilizadores@),
        dias_sem_fadiga(r.escalas@),
        dias_sem_indisponiveis(r.escalas@, indisponibilidades@),
        forall|k: int|
            0 <= k < r.escalas@.len() ==> exists|j: int|
                0 <= j < dias@.len() && (#[trigger] dias@[j]).data == (#[trigger] r.escalas@[k]).data
                    && r.escalas@[k].escala.tipo_dia == dias@[j].tipo,
        forall|k1: int, k2: int|
            0 <= k1 < k2 < r.escalas@.len() ==> (#[trigger] r.escalas@[k1]).data
                < (#[trigger] r.escalas@[k2]).data,
        r.erro is None ==> r.escalas@.len() == dias@.len(),
        r.erro matches Some(e) ==> aborto_coerente(dias@, postos@, r.escalas@, e),
        crate::contagem::nao_diminui(contagens, r.contagens),
        r.punicoes@.len() == punicoes@.len(),
        forall|i: int|
            0 <= i < r.punicoes@.len() ==> {
                let antes = punicoes@[i];
                let depois = #[trigger] r.punicoes@[i];
                &&& depois.user_id == antes.user_id
                &&& depois.total_a_cumprir == antes.total_a_cumprir
                &&& antes.ja_cumpridos <= depois.ja_cumpridos
                &&& depois.bem_formada()
            },
        forall|dev: Seq<char>, d: Divida|
            #[trigger] crate::dividas::conta(r.dividas.registos@, dev, d)
                <= crate::dividas::conta(dividas.registos@, dev, d),
{
    broadcast use group_to_multiset_ensures;

    let ghost dias_in = dias@;
    let ghost cont_in = contagens;
    let ghost pun_in = punicoes@;
    let mut contagens = contagens;
    let mut punicoes = punicoes;
    let mut dividas = dividas;
    let dias_ord = ordenar_dias(dias);
    let indis = ids_indisponiveis(indisponibilidades);
    let mut fadigados: Vec<String> = Vec::new();
    let mut escalas: Vec<DiaGerado> = Vec::new();
    let mut pagas: Vec<DividaPaga> = Vec::new();
    proof {
        reveal(dias_sem_fadiga);
        reveal(dias_sem_indisponiveis);
        assert(vistas(fadigados@) =~= Seq::<Seq<char>>::empty());
    }
    let n = dias_ord.len();
    let mut d: usize = 0;
    while d < n
        invariant
            n == dias_ord@.len(),
            0 <= d <= n,
            escalas@.len() == d,
            forall|k: int|
                0 <= k < d ==> (#[trigger] escalas@[k]).data == dias_ord@[k].data
                    && escalas@[k].escala.tipo_dia == dias_ord@[k].tipo
                    && escalas@[k].escala.sem_pessoa_repetida(),
            forall|k: int|
                0 <= k < d && !((#[trigger] escalas@[k]).escala.tipo_dia is Retem) ==> dia_conforme(
                    escalas@[k].escala,
                    postos@,
                    utilizadores@,
                ),
            dias_sem_fadiga(escalas@),
            dias_sem_indisponiveis(escalas@, indisponibilidades@),
            indis@.len() == indisponibilidades@.len(),
            forall|m: int| 0 <= m < indis@.len() ==> indis@[m]@ == indisponibilidades@[m].user_id@,
            d == 0 ==> vistas(fadigados@) == Seq::<Seq<char>>::empty(),
            d > 0 ==> vistas(fadigados@) == escalas@[d - 1].escala.todos_ids(),
            crate::contagem::folga(contagens, ((n - d) * cap_dia(postos@)) as nat),
            crate::contagem::nao_diminui(cont_in, contagens),
            punicoes@.len() == pun_in.len(),
            forall|i: int|
                0 <= i < punicoes@.len() ==> {
                    let antes = pun_in[i];
                    let depois = #[trigger] punicoes@[i];
                    &&& depois.user_id == antes.user_id
                    &&& depois.total_a_cumprir == antes.total_a_cumprir
                    &&& antes.ja_cumpridos <= depois.ja_cumpridos
                    &&& depois.bem_formada()
                },
        decreases n - d,
    {
        let dia = dias_ord[d];
        let anterior_especial = if d > 0 {
            dias_ord[d - 1].tipo.especial()
        } else {
            false
        };
        let seguinte_especial = if d + 1 < n {
            dias_ord[d + 1].tipo.especial()
        } else {
            false
        };
        let adiar = dia.tipo.especial() && !anterior_especial && seguinte_especial;
        let exclusao = juntar(&fadigados, &indis);
        proof {
            assert((n - d) * cap_dia(postos@) == cap_dia(postos@) + (n - d - 1) * cap_dia(
                postos@,
            )) by (nonlinear_arith)
                requires d < n;
            crate::contagem::lema_folga_monotona(
                contagens,
                ((n - d) * cap_dia(postos@)) as nat,
                cap_dia(postos@),
            );
        }
        let ghost cont_antes = contagens;
        match gerar_dia(
            dia.data,
            dia.tipo,
            adiar,
            utilizadores,
            postos,
            config,
            &exclusao,
            &mut contagens,
            &mut punicoes,
            &dividas,
            &mut pagas,
        ) {
            Ok(dp) => {
                let ghost escalas_antes = escalas@;
                let ghost fadigados_antes_v = vistas(fadigados@);
                fadigados = dp.usados;
                escalas.push(DiaGerado { data: dia.data, escala: dp.escala });
                proof {
                    crate::contagem::lema_folga_apos(
                        cont_antes,
                        contagens,
                        ((n - d) * cap_dia(postos@)) as nat,
                        cap_dia(postos@),
                    );
                    crate::contagem::lema_nao_diminui_transitivo(cont_in, cont_antes, contagens);
                    let novo = escalas@[d as int].escala;
                    if !(novo.tipo_dia is Retem) {
                        reveal(dia_conforme);
                        assert(dia_conforme(novo, postos@, utilizadores@));
                    }
                    assert forall|k: int|
                        0 <= k < d + 1 && !((#[trigger] escalas@[k]).escala.tipo_dia is Retem)
                        implies dia_conforme(escalas@[k].escala, postos@, utilizadores@) by {
                        if k < d as int {
                            assert(escalas@[k] == escalas_antes[k]);
                        }
                    }
                    reveal(dias_sem_fadiga);
                    assert forall|k: int, x: Seq<char>|
                        #![trigger escalas@[k].escala.todos_ids().contains(x)]
                        1 <= k < escalas@.len() && escalas@[k].escala.todos_ids().contains(x)
                        implies !escalas@[k - 1].escala.todos_ids().contains(x) by {
                        if k < d as int {
                            assert(escalas@[k] == escalas_antes[k]);
                            assert(escalas@[k - 1] == escalas_antes[k - 1]);
                        } else if k == d as int && d > 0 {
                            assert(novo.todos_ids().contains(x));
                            assert(!vistas(exclusao@).contains(x));
                            lema_contem_em_concat(fadigados_antes_v, vistas(indis@), x);
                            assert(!fadigados_antes_v.contains(x));
                            assert(escalas@[k - 1] == escalas_antes[k - 1]);
                        }
                    }
                    reveal(dias_sem_indisponiveis);
                    assert forall|k: int, m: int|
                        0 <= k < escalas@.len() && 0 <= m < indisponibilidades@.len()
                        implies !(#[trigger] escalas@[k]).escala.todos_ids().contains(
                        (#[trigger] indisponibilidades@[m]).user_id@,
                    ) by {
                        if k < d as int {
                            assert(escalas@[k] == escalas_antes[k]);
                        } else {
                            let x = indisponibilidades@[m].user_id@;
                            if novo.todos_ids().contains(x) {
                                assert(vistas(indis@)[m] == x);
                                assert(vistas(indis@).contains(x));
                                lema_contem_em_concat(fadigados_antes_v, vistas(indis@), x);
                                assert(vistas(exclusao@).contains(x));
                            }
                        }
                    }
                }
            },
            Err(e) => {
                proof {
                    crate::contagem::lema_nao_diminui_transitivo(cont_in, cont_antes, contagens);
                    lema_escalas_correspondem(dias_in, dias_ord@, escalas@);
                    lema_abortagem(dias_in, dias_ord@, postos@, escalas@, e, d as int);
                }
                return Geracao { escalas, contagens, dividas, punicoes, erro: Some(e) };
            },
        }
        d = d + 1;
    }
    dividas.liquidar(&pagas);
    proof {
        lema_escalas_correspondem(dias_in, dias_ord@, escalas@);
    }
    Geracao { escalas, contagens, dividas, punicoes, erro: None }
}

/// What an abort certifies: the produced days are exactly the requested
/// dates before the failing one, and the error names a requested date and a
/// real slot of some post on that date's routine.
#[verifier::opaque]
pub open spec fn aborto_coerente(
    dias: Seq<DiaRotina>,
    postos: Seq<Posto>,
    escalas: Seq<DiaGerado>,
    e: ErroGeracao,
) -> bool {
    &&& escalas.len() < dias.len()
    &&& (forall|k: int| 0 <= k < escalas.len() ==> (#[trigger] escalas[k]).data < e.data)
    &&& (forall|j: int|
        0 <= j < dias.len() && (#[trigger] dias[j]).data < e.data ==> (exists|k: int|
            0 <= k < escalas.len() && (#[trigger] escalas[k]).data == dias[j].data))
    &&& (exists|j: int|
        0 <= j < dias.len() && (#[trigger] dias[j]).data == e.data && (exists|pi: int, h2: int|
            0 <= pi < postos.len() && (#[trigger] postos[pi]).nome@ == e.posto@ && 0 <= h2
                < postos[pi].spec_horarios(dias[j].tipo).len() && e.horario@
                == (#[trigger] postos[pi].spec_horarios(dias[j].tipo)[h2])@))
}

/// An aborted run covers exactly the requested dates before the failing
/// one: every produced day lies strictly before it, and every earlier
/// requested date was produced.
proof fn lema_abortagem(
    dias_in: Seq<DiaRotina>,
    dias_ord: Seq<DiaRotina>,
    postos: Seq<Posto>,
    escalas: Seq<DiaGerado>,
    e: ErroGeracao,
    d: int,
)
    requires
        datas_distintas(dias_in),
        dias_ord.to_multiset() == dias_in.to_multiset(),
        dias_ord.len() == dias_in.len(),
        forall|i: int, j: int| 0 <= i < j < dias_ord.len() ==> dias_ord[i].data <= dias_ord[j].data,
        datas_distintas(dias_ord),
        0 <= d < dias_ord.len(),
        escalas.len() == d,
        forall|k: int| 0 <= k < d ==> (#[trigger] escalas[k]).data == dias_ord[k].data,
        e.data == dias_ord[d].data,
        exists|pi: int, h2: int|
            0 <= pi < postos.len() && (#[trigger] postos[pi]).nome@ == e.posto@ && 0 <= h2
                < postos[pi].spec_horarios(dias_ord[d].tipo).len() && e.horario@
                == (#[trigger] postos[pi].spec_horarios(dias_ord[d].tipo)[h2])@,
    ensures
        aborto_coerente(dias_in, postos, escalas, e),
{
    broadcast use group_to_multiset_ensures;

    reveal(aborto_coerente);
    let data_erro = e.data;
    assert(dias_ord.to_multiset().contains(dias_ord[d]));
    assert(dias_in.contains(dias_ord[d]));
    let jw = choose|jw: int| 0 <= jw < dias_in.len() && dias_in[jw] == dias_ord[d];
    assert(dias_in[jw].data == data_erro && dias_in[jw].tipo == dias_ord[d].tipo);
    assert forall|k: int| 0 <= k < escalas.len() implies (#[trigger] escalas[k]).data
        < data_erro by {
        assert(escalas[k].data == dias_ord[k].data);
        assert(dias_ord[k].data <= dias_ord[d].data);
        assert(dias_ord[k].data != dias_ord[d].data);
    }
    assert forall|j: int|
        0 <= j < dias_in.len() && (#[trigger] dias_in[j]).data < data_erro implies (exists|k: int|
        0 <= k < escalas.len() && (#[trigger] escalas[k]).data == dias_in[j].data) by {
        assert(dias_in.to_multiset().contains(dias_in[j]));
        assert(dias_ord.contains(dias_in[j]));
        let kx = choose|kx: int| 0 <= kx < dias_ord.len() && dias_ord[kx] == dias_in[j];
        if kx >= d {
            assert(dias_ord[d].data <= dias_ord[kx].data);
        }
        assert(kx < d);
        assert(escalas[kx].data == dias_in[j].data);
    }
}

/// A produced prefix of the sorted window matches the requested days: each
/// produced day carries a requested date with its requested routine, and the
/// dates come out strictly ascending.
proof fn lema_escalas_correspondem(
    dias_in: Seq<DiaRotina>,
    dias_ord: Seq<DiaRotina>,
    escalas: Seq<DiaGerado>,
)
    requires
        datas_distintas(dias_in),
        dias_ord.to_multiset() == dias_in.to_multiset(),
        dias_ord.len() == dias_in.len(),
        forall|i: int, j: int| 0 <= i < j < dias_ord.len() ==> dias_ord[i].data <= dias_ord[j].data,
        datas_distintas(dias_ord),
        escalas.len() <= dias_ord.len(),
        forall|k: int|
            0 <= k < escalas.len() ==> (#[trigger] escalas[k]).data == dias_ord[k].data
                && escalas[k].escala.tipo_dia == dias_ord[k].tipo,
    ensures
        forall|k: int|
            0 <= k < escalas.len() ==> exists|j: int|
                0 <= j < dias_in.len() && (#[trigger] dias_in[j]).data == (#[trigger] escalas[k]).data
                    && escalas[k].escala.tipo_dia == dias_in[j].tipo,
        forall|k1: int, k2: int|
            0 <= k1 < k2 < escalas.len() ==> (#[trigger] escalas[k1]).data
                < (#[trigger] escalas[k2]).data,
{
    broadcast use group_to_multiset_ensures;

    assert forall|k: int| 0 <= k < escalas.len() implies exists|j: int|
        0 <= j < dias_in.len() && (#[trigger] dias_in[j]).data == (#[trigger] escalas[k]).data
            && escalas[k].escala.tipo_dia == dias_in[j].tipo by {
        assert(dias_ord.to_multiset().contains(dias_ord[k]));
        assert(dias_in.contains(dias_ord[k]));
        let w = choose|w: int| 0 <= w < dias_in.len() && dias_in[w] == dias_ord[k];
        assert(dias_in[w].data == escalas[k].data && escalas[k].escala.tipo_dia == dias_in[w].tipo);
    }
}

} // verus!
