//! Data model of the scheduling core: people, duty posts, daily rosters,
//! fairness counters, debts, punishments and trade requests.
//!
//! Calendar dates are carried as plain day numbers (`i64`), consecutive
//! integers with one unit per day, so that "the day before" and "the day
//! after" are `- 1` and `+ 1`.  Callers translate real dates to and from
//! these numbers at the edge of the system.

use vstd::prelude::*;

verus! {

/// Gender constraint of a duty post, or gender of a person.
#[derive(Clone, Copy, Debug, PartialEq, Eq, Structural)]
pub enum Genero {
    Masculino,
    Feminino,
    Misto,
}

/// Routine type of a day: `RN` is the normal routine; `RD`, `UDRD` and `ER`
/// are the special (Sunday-pattern) routines; `Retem` names the standby
/// service category in counters and debts.
#[derive(Clone, Copy, Debug, PartialEq, Eq, Structural)]
pub enum TipoServico {
    RN,
    RD,
    UDRD,
    ER,
    Retem,
}

impl TipoServico {
    /// A special-routine day: any routine other than the normal one.
    pub open spec fn spec_especial(self) -> bool {
        self is RD || self is UDRD || self is ER
    }

    /// Whether this routine type is one of the special (Sunday-pattern) ones.
    pub fn especial(&self) -> (r: bool)
        ensures
            r == self.spec_especial(),
    {
        match self {
            TipoServico::RD | TipoServico::UDRD | TipoServico::ER => true,
            _ => false,
        }
    }
}

/// One person assigned to one slot: their id, the display label shown on the
/// roster (the name, possibly annotated), and whether the assignment serves a
/// forced-service quota.
#[derive(Clone, Debug)]
pub struct Alocacao {
    pub user_id: String,
    pub nome: String,
    pub punicao: bool,
}

/// An outstanding obligation: `credor` covered a duty for the debtor under
/// whose ledger entry this record sits, in the service category `tipo_divida`.
#[derive(Clone, Debug)]
pub struct Divida {
    pub credor: String,
    pub tipo_divida: TipoServico,
}

impl Divida {
    /// Field-wise equality; the ledger uses it to settle a paid debt.
    pub open spec fn spec_igual(self, outra: Divida) -> bool {
        self.credor@ == outra.credor@ && self.tipo_divida == outra.tipo_divida
    }

    /// Whether two debt records name the same creditor and category.
    pub fn igual(&self, outra: &Divida) -> (r: bool)
        ensures
            r == self.spec_igual(*outra),
    {
        self.credor == outra.credor && self.tipo_divida == outra.tipo_divida
    }
}

/// A forced-service quota: `user_id` must serve `total_a_cumprir` times and
/// has served `ja_cumpridos` of them so far.
#[derive(Clone, Debug)]
pub struct Punicao {
    pub user_id: String,
    pub total_a_cumprir: u32,
    pub ja_cumpridos: u32,
}

impl Punicao {
    /// The completed count never exceeds the required total.
    pub open spec fn bem_formada(self) -> bool {
        self.ja_cumpridos <= self.total_a_cumprir
    }

    /// An open record still owes service.
    pub open spec fn aberta(self) -> bool {
        self.ja_cumpridos < self.total_a_cumprir
    }
}

/// Per-person fairness tallies: normal-routine services, special-routine
/// services, and standby turns.
#[derive(Clone, Copy, Debug, PartialEq, Eq, Structural)]
pub struct ContagemUtilizador {
    pub rn: u32,
    pub rd: u32,
    pub retem: u32,
}

impl ContagemUtilizador {
    /// A fresh tally with every category at zero.
    pub fn zerada() -> (r: ContagemUtilizador)
        ensures
            r.rn == 0 && r.rd == 0 && r.retem == 0,
    {
        ContagemUtilizador { rn: 0, rd: 0, retem: 0 }
    }
}

impl Default for ContagemUtilizador {
    fn default() -> (r: ContagemUtilizador)
        ensures
            r.rn == 0 && r.rd == 0 && r.retem == 0,
    {
        ContagemUtilizador { rn: 0, rd: 0, retem: 0 }
    }
}

/// A person, as the scheduler reads them: stable id, display name, class
/// year, course marker, gender and role set.  The password hash travels with
/// the record but the scheduler never interprets it.
#[derive(Clone, Debug)]
pub struct User {
    pub id: String,
    pub password: String,
    pub name: String,
    pub turma: String,
    pub ano: u8,
    pub curso: char,
    pub genero: Genero,
    pub roles: Vec<String>,
}

/// A duty post: name, permitted class years, gender constraint, optional
/// exclusive-role requirement, and the ordered slot labels of each routine
/// type.
#[derive(Clone, Debug)]
pub struct Posto {
    pub nome: String,
    pub turmas_permitidas: Vec<u8>,
    pub genero: Genero,
    pub funcao_exclusiva: Option<String>,
    pub horarios_rn: Vec<String>,
    pub horarios_rd: Vec<String>,
    pub horarios_udrd: Vec<String>,
    pub horarios_er: Vec<String>,
}

impl Posto {
    /// The slot labels this post defines for a day of the given routine type;
    /// the standby category defines none.
    pub open spec fn spec_horarios(self, tipo: TipoServico) -> Seq<String> {
        match tipo {
            TipoServico::RN => self.horarios_rn@,
            TipoServico::RD => self.horarios_rd@,
            TipoServico::UDRD => self.horarios_udrd@,
            TipoServico::ER => self.horarios_er@,
            TipoServico::Retem => Seq::empty(),
        }
    }

    /// How many slots this post defines on a day of the given routine type.
    pub fn num_horarios(&self, tipo: TipoServico) -> (n: usize)
        ensures
            n == self.spec_horarios(tipo).len(),
    {
        match tipo {
            TipoServico::RN => self.horarios_rn.len(),
            TipoServico::RD => self.horarios_rd.len(),
            TipoServico::UDRD => self.horarios_udrd.len(),
            TipoServico::ER => self.horarios_er.len(),
            TipoServico::Retem => 0,
        }
    }

    /// The `i`-th slot label of this post on a day of the given routine type.
    pub fn horario(&self, tipo: TipoServico, i: usize) -> (h: &String)
        requires
            i < self.spec_horarios(tipo).len(),
        ensures
            *h == self.spec_horarios(tipo)[i as int],
    {
        match tipo {
            TipoServico::RN => &self.horarios_rn[i],
            TipoServico::RD => &self.horarios_rd[i],
            TipoServico::UDRD => &self.horarios_udrd[i],
            TipoServico::ER => &self.horarios_er[i],
            TipoServico::Retem => &self.horarios_rn[i],
        }
    }
}

/// One filled slot of a post: the slot label and its assignment.
#[derive(Clone, Debug)]
pub struct AlocacaoHorario {
    pub horario: String,
    pub alocacao: Alocacao,
}

/// One post of a daily roster with its filled slots, in slot order.
#[derive(Clone, Debug)]
pub struct PostoEscalado {
    pub posto: String,
    pub horarios: Vec<AlocacaoHorario>,
}

/// The roster of one calendar day: the routine type, every post with its
/// filled slots, and the standby team.
#[derive(Clone, Debug)]
pub struct EscalaDiaria {
    pub tipo_dia: TipoServico,
    pub escala: Vec<PostoEscalado>,
    pub retem: Vec<Alocacao>,
}

/// The ids assigned in a sequence of filled slots, in order.
pub open spec fn ids_de_horarios(hs: Seq<AlocacaoHorario>) -> Seq<Seq<char>>
    decreases hs.len(),
{
    if hs.len() == 0 {
        Seq::empty()
    } else {
        ids_de_horarios(hs.drop_last()).push(hs.last().alocacao.user_id@)
    }
}

/// The ids assigned in a sequence of standby allocations, in order.
pub open spec fn ids_de_alocacoes(hs: Seq<Alocacao>) -> Seq<Seq<char>>
    decreases hs.len(),
{
    if hs.len() == 0 {
        Seq::empty()
    } else {
        ids_de_alocacoes(hs.drop_last()).push(hs.last().user_id@)
    }
}

/// The ids assigned across a sequence of rostered posts, post by post.
pub open spec fn ids_de_postos(ps: Seq<PostoEscalado>) -> Seq<Seq<char>>
    decreases ps.len(),
{
    if ps.len() == 0 {
        Seq::empty()
    } else {
        ids_de_postos(ps.drop_last()) + ids_de_horarios(ps.last().horarios@)
    }
}

impl EscalaDiaria {
    /// Every id assigned on this day: post slots first, then standby.
    pub open spec fn todos_ids(self) -> Seq<Seq<char>> {
        ids_de_postos(self.escala@) + ids_de_alocacoes(self.retem@)
    }

    /// Whether the given person holds any slot (post or standby) on this day.
    pub open spec fn contem_id(self, id: Seq<char>) -> bool {
        self.todos_ids().contains(id)
    }

    /// No person holds more than one slot on the day.
    pub open spec fn sem_pessoa_repetida(self) -> bool {
        sem_repeticao(self.todos_ids())
    }
}

/// No id occurs twice in the sequence.
pub open spec fn sem_repeticao(s: Seq<Seq<char>>) -> bool {
    forall|i: int, j: int| 0 <= i < j < s.len() ==> s[i] != s[j]
}

/// Filling one more slot appends its id.
pub proof fn lema_ids_horarios_push(hs: Seq<AlocacaoHorario>, x: AlocacaoHorario)
    ensures
        ids_de_horarios(hs.push(x)) == ids_de_horarios(hs).push(x.alocacao.user_id@),
{
    assert(hs.push(x).drop_last() =~= hs);
    assert(hs.push(x).last() == x);
}

/// Adding one more standby member appends their id.
pub proof fn lema_ids_alocacoes_push(hs: Seq<Alocacao>, x: Alocacao)
    ensures
        ids_de_alocacoes(hs.push(x)) == ids_de_alocacoes(hs).push(x.user_id@),
{
    assert(hs.push(x).drop_last() =~= hs);
    assert(hs.push(x).last() == x);
}

/// Finishing one more post appends its ids.
pub proof fn lema_ids_postos_push(ps: Seq<PostoEscalado>, x: PostoEscalado)
    ensures
        ids_de_postos(ps.push(x)) == ids_de_postos(ps) + ids_de_horarios(x.horarios@),
{
    assert(ps.push(x).drop_last() =~= ps);
    assert(ps.push(x).last() == x);
}

/// Standby ids distribute over concatenation.
pub proof fn lema_ids_alocacoes_concat(r1: Seq<Alocacao>, r2: Seq<Alocacao>)
    ensures
        ids_de_alocacoes(r1 + r2) == ids_de_alocacoes(r1) + ids_de_alocacoes(r2),
    decreases r2.len(),
{
    if r2.len() == 0 {
        assert(r1 + r2 =~= r1);
        assert(ids_de_alocacoes(r1) + ids_de_alocacoes(r2) =~= ids_de_alocacoes(r1));
    } else {
        lema_ids_alocacoes_concat(r1, r2.drop_last());
        assert((r1 + r2).drop_last() =~= r1 + r2.drop_last());
        assert((r1 + r2).last() == r2.last());
        assert(ids_de_alocacoes(r1 + r2) == ids_de_alocacoes(r1 + r2.drop_last()).push(
            r2.last().user_id@,
        ));
        assert(ids_de_alocacoes(r2) == ids_de_alocacoes(r2.drop_last()).push(r2.last().user_id@));
        assert(ids_de_alocacoes(r1) + ids_de_alocacoes(r2.drop_last()).push(r2.last().user_id@)
            =~= (ids_de_alocacoes(r1) + ids_de_alocacoes(r2.drop_last())).push(
            r2.last().user_id@,
        ));
    }
}

/// An inclusive date range, as day numbers.
#[derive(Clone, Copy, Debug, PartialEq, Eq, Structural)]
pub struct Periodo {
    pub start_date: i64,
    pub end_date: i64,
}

/// Scheduler state: the period in force, the pending next period if one was
/// generated, and whether the trade window for the pending period is open.
#[derive(Clone, Debug)]
pub struct EstadoEscala {
    pub periodo_atual: Periodo,
    pub periodo_seguinte: Option<Periodo>,
    pub status_trocas: String,
}

/// One published service, addressed by date, post name, slot label and the
/// person holding it.
#[derive(Clone, Debug)]
pub struct DetalheServico {
    pub data: i64,
    pub posto: String,
    pub horario: String,
    pub user_id: String,
}

/// Kind of a trade request: a mutual permutation of two services, or a
/// one-sided coverage of the target's service by the requester.
#[derive(Clone, Copy, Debug, PartialEq, Eq, Structural)]
pub enum TipoTroca {
    Permuta,
    Cobertura,
}

/// Status of a trade request.  It only ever advances `PendenteAlvo` to
/// `PendenteAdmin` to `Aprovada` or `Recusada`, or `PendenteAlvo` straight to
/// `Recusada`.
#[derive(Clone, Copy, Debug, PartialEq, Eq, Structural)]
pub enum StatusTroca {
    PendenteAlvo,
    PendenteAdmin,
    Aprovada,
    Recusada,
}

/// A trade request between two people over published services.
#[derive(Clone, Debug)]
pub struct Troca {
    pub id: String,
    pub tipo: TipoTroca,
    pub requerente: DetalheServico,
    pub alvo: DetalheServico,
    pub motivo: String,
    pub status: StatusTroca,
}

/// One person unavailable on one date, with the reason.
#[derive(Clone, Debug)]
pub struct Indisponibilidade {
    pub user_id: String,
    pub data: i64,
    pub motivo: String,
}

/// Which posts may receive forced-service assignments.
#[derive(Clone, Debug)]
pub struct ConfiguracaoEscala {
    pub postos_punicao: Vec<String>,
}

} // verus!
