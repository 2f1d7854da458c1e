//! Read-side helpers of the surrounding pages: presence statistics, meal
//! interest counts, and the display formatting of routine types, slot labels
//! and presence timestamps.

use vstd::prelude::*;
use vstd::string::{StrSliceExecFns, StringExecFns};
use crate::tipos::TipoServico;
use crate::texto::{acrescentar_char, dec, u32_decimal};

verus! {

/// A wall-clock moment, fine enough for presence tracking: later moments
/// compare greater field by field.
#[derive(Clone, Copy, Debug, PartialEq, Eq, Structural)]
pub struct Momento {
    pub ano: u16,
    pub mes: u8,
    pub dia: u8,
    pub hora: u8,
    pub minuto: u8,
    pub segundo: u8,
}

/// Whether `a` lies strictly after `b`.
pub open spec fn spec_depois_de(a: Momento, b: Momento) -> bool {
    if a.ano != b.ano {
        a.ano > b.ano
    } else if a.mes != b.mes {
        a.mes > b.mes
    } else if a.dia != b.dia {
        a.dia > b.dia
    } else if a.hora != b.hora {
        a.hora > b.hora
    } else if a.minuto != b.minuto {
        a.minuto > b.minuto
    } else {
        a.segundo > b.segundo
    }
}

/// Strict order on moments, executed.
pub fn depois_de(a: Momento, b: Momento) -> (r: bool)
    ensures
        r == spec_depois_de(a, b),
{
    if a.ano != b.ano {
        a.ano > b.ano
    } else if a.mes != b.mes {
        a.mes > b.mes
    } else if a.dia != b.dia {
        a.dia > b.dia
    } else if a.hora != b.hora {
        a.hora > b.hora
    } else if a.minuto != b.minuto {
        a.minuto > b.minuto
    } else {
        a.segundo > b.segundo
    }
}

/// One person on the presence board: identity plus the latest recorded
/// leave and return, each with who recorded it.
#[derive(Clone, Debug)]
pub struct PresencePerson {
    pub id: String,
    pub curso: char,
    pub nome: String,
    pub ano: u8,
    pub ultima_saida: Option<Momento>,
    pub ultimo_retorno: Option<Momento>,
    pub usuario_saida: Option<String>,
    pub usuario_retorno: Option<String>,
}

/// How many of a group are out, how many in, and the group size.
#[derive(Clone, Copy, Debug, PartialEq, Eq, Structural)]
pub struct PresenceStats {
    pub fora: usize,
    pub dentro: usize,
    pub total: usize,
}

/// Out when the last leave is more recent than the last return, or when a
/// leave stands with no return at all.
pub open spec fn spec_fora(p: PresencePerson) -> bool {
    match (p.ultima_saida, p.ultimo_retorno) {
        (Some(s), Some(r)) => spec_depois_de(s, r),
        (Some(_), None) => true,
        _ => false,
    }
}

/// Whether the person is currently outside.
pub fn is_person_outside(pessoa: &PresencePerson) -> (r: bool)
    ensures
        r == spec_fora(*pessoa),
{
    match (&pessoa.ultima_saida, &pessoa.ultimo_retorno) {
        (Some(saida), Some(retorno)) => depois_de(*saida, *retorno),
        (Some(_), None) => true,
        _ => false,
    }
}

/// How many of the first `n` people are out.
pub open spec fn conta_fora(ps: Seq<PresencePerson>, n: int) -> int
    decreases n,
{
    if n <= 0 {
        0
    } else {
        conta_fora(ps, n - 1) + (if spec_fora(ps[n - 1]) {
            1int
        } else {
            0int
        })
    }
}

/// The presence statistics of a group: how many are out, the rest are in.
#[verifier::loop_isolation(false)]
pub fn calcular_stats(pessoas: &Vec<PresencePerson>) -> (r: PresenceStats)
    ensures
        r.total == pessoas@.len(),
        r.fora == conta_fora(pessoas@, pessoas@.len() as int),
        r.dentro == r.total - r.fora,
{
    let mut fora: usize = 0;
    let mut i: usize = 0;
    while i < pessoas.len()
        invariant
            0 <= i <= pessoas@.len(),
            fora == conta_fora(pessoas@, i as int),
            fora <= i,
        decreases pessoas@.len() - i,
    {
        if is_person_outside(&pessoas[i]) {
            fora = fora + 1;
        }
        i = i + 1;
    }
    PresenceStats { fora, dentro: pessoas.len() - fora, total: pessoas.len() }
}

/// A number padded to two decimal digits.
pub open spec fn spec_dois_digitos(n: int) -> Seq<char> {
    if n < 10 {
        "0"@ + dec(n)
    } else {
        dec(n)
    }
}

fn dois_digitos(n: u8) -> (r: String)
    ensures
        r@ == spec_dois_digitos(n as int),
{
    let d = u32_decimal(n as u32);
    if n < 10 {
        let mut s = String::from_str("0");
        s.append(d.as_str());
        proof {
            assert(s@ =~= spec_dois_digitos(n as int));
        }
        s
    } else {
        d
    }
}

/// The day-and-time half of a presence cell: the moment as `dd/mm hh:mm`.
pub open spec fn spec_momento_curto(m: Momento) -> Seq<char> {
    spec_dois_digitos(m.dia as int) + "/"@ + spec_dois_digitos(m.mes as int) + " "@
        + spec_dois_digitos(m.hora as int) + ":"@ + spec_dois_digitos(m.minuto as int)
}

/// One presence cell: the moment and who recorded it, or a dash when there
/// is nothing to show.
pub open spec fn spec_info(m: Option<Momento>, u: Option<Seq<char>>) -> Seq<char> {
    match (m, u) {
        (Some(m), Some(u)) => spec_momento_curto(m) + " "@ + u,
        _ => "---"@,
    }
}

fn info_registo(m: &Option<Momento>, u: &Option<String>) -> (r: String)
    ensures
        r@ == spec_info(
            *m,
            match u {
                Some(s) => Some(s@),
                None => None,
            },
        ),
{
    match (m, u) {
        (Some(momento), Some(autor)) => {
            let mut s = dois_digitos(momento.dia);
            s.append("/");
            let mm = dois_digitos(momento.mes);
            s.append(mm.as_str());
            s.append(" ");
            let hh = dois_digitos(momento.hora);
            s.append(hh.as_str());
            s.append(":");
            let mi = dois_digitos(momento.minuto);
            s.append(mi.as_str());
            s.append(" ");
            s.append(autor.as_str());
            proof {
                assert(s@ =~= spec_momento_curto(*momento) + " "@ + autor@);
            }
            s
        },
        _ => String::from_str("---"),
    }
}

/// The two presence cells of a person: when and by whom the last leave and
/// the last return were recorded.
pub fn format_datetime_info(pessoa: &PresencePerson) -> (r: (String, String))
    ensures
        r.0@ == spec_info(
            pessoa.ultima_saida,
            match pessoa.usuario_saida {
                Some(s) => Some(s@),
                None => None,
            },
        ),
        r.1@ == spec_info(
            pessoa.ultimo_retorno,
            match pessoa.usuario_retorno {
                Some(s) => Some(s@),
                None => None,
            },
        ),
{
    let saida = info_registo(&pessoa.ultima_saida, &pessoa.usuario_saida);
    let retorno = info_registo(&pessoa.ultimo_retorno, &pessoa.usuario_retorno);
    (saida, retorno)
}

/// One person's meal interest for one day.
#[derive(Clone, Debug)]
pub struct MealSelection {
    pub nome: String,
    pub turma: String,
    pub cafe: bool,
    pub almoco: bool,
    pub janta: bool,
    pub ceia: bool,
    pub cafe_realizado: bool,
    pub almoco_realizado: bool,
    pub janta_realizado: bool,
    pub ceia_realizado: bool,
}

/// Per-meal interest counts of one day.
#[derive(Clone, Copy, Debug, PartialEq, Eq, Structural)]
pub struct MealSummary {
    pub cafe: u32,
    pub almoco: u32,
    pub janta: u32,
    pub ceia: u32,
}

/// How many of the first `n` selections ask for the given meal.
pub open spec fn conta_refeicao(ss: Seq<MealSelection>, n: int, qual: spec_fn(MealSelection) -> bool) -> int
    decreases n,
{
    if n <= 0 {
        0
    } else {
        conta_refeicao(ss, n - 1, qual) + (if qual(ss[n - 1]) {
            1int
        } else {
            0int
        })
    }
}

/// The daily interest counts: how many selections ask for each meal.
#[verifier::loop_isolation(false)]
pub fn resumo_refeicoes(selecoes: &Vec<MealSelection>) -> (r: MealSummary)
    requires
        selecoes@.len() <= u32::MAX,
    ensures
        r.cafe == conta_refeicao(selecoes@, selecoes@.len() as int, |s: MealSelection| s.cafe),
        r.almoco == conta_refeicao(selecoes@, selecoes@.len() as int, |s: MealSelection| s.almoco),
        r.janta == conta_refeicao(selecoes@, selecoes@.len() as int, |s: MealSelection| s.janta),
        r.ceia == conta_refeicao(selecoes@, selecoes@.len() as int, |s: MealSelection| s.ceia),
{
    let mut cafe: u32 = 0;
    let mut almoco: u32 = 0;
    let mut janta: u32 = 0;
    let mut ceia: u32 = 0;
    let mut i: usize = 0;
    while i < selecoes.len()
        invariant
            0 <= i <= selecoes@.len(),
            selecoes@.len() <= u32::MAX,
            cafe == conta_refeicao(selecoes@, i as int, |s: MealSelection| s.cafe),
            almoco == conta_refeicao(selecoes@, i as int, |s: MealSelection| s.almoco),
            janta == conta_refeicao(selecoes@, i as int, |s: MealSelection| s.janta),
            ceia == conta_refeicao(selecoes@, i as int, |s: MealSelection| s.ceia),
            cafe <= i && almoco <= i && janta <= i && ceia <= i,
        decreases selecoes@.len() - i,
    {
        if selecoes[i].cafe {
            cafe = cafe + 1;
        }
        if selecoes[i].almoco {
            almoco = almoco + 1;
        }
        if selecoes[i].janta {
            janta = janta + 1;
        }
        if selecoes[i].ceia {
            ceia = ceia + 1;
        }
        i = i + 1;
    }
    MealSummary { cafe, almoco, janta, ceia }
}

/// The display name of a routine type on the roster pages.
pub fn formatar_tipo_servico(tipo: &TipoServico) -> (r: &'static str)
    ensures
        tipo is RN ==> r@ == "Rotina Normal"@,
        tipo.spec_especial() ==> r@ == "Rotina de Domingo"@,
        tipo is Retem ==> r@ == "Retém"@,
{
    match tipo {
        TipoServico::RN => "Rotina Normal",
        TipoServico::RD | TipoServico::UDRD | TipoServico::ER => "Rotina de Domingo",
        TipoServico::Retem => "Retém",
    }
}

/// The heading name of a routine type on the printed sheet.
pub fn tipo_rotina_str(tipo: &TipoServico) -> (r: &'static str)
    ensures
        tipo is RN ==> r@ == "ROTINA NORMAL"@,
        !(tipo is RN) ==> r@ == "ROTINA DE DOMINGO"@,
{
    match tipo {
        TipoServico::RN => "ROTINA NORMAL",
        _ => "ROTINA DE DOMINGO",
    }
}

/// An hour padded to four digits by its cleaned length: the rule the
/// printed sheet uses.
pub open spec fn spec_pad(seg: Seq<char>) -> Seq<char> {
    if seg.len() == 3 {
        "0"@ + seg
    } else if seg.len() == 1 {
        "000"@ + seg
    } else if seg.len() == 2 {
        "00"@ + seg
    } else {
        seg
    }
}

/// The printable form of the rest of a slot label, with the hour read so
/// far: shift periods one per line, the hours of a period side by side,
/// colons dropped, each hour padded to four digits.
pub open spec fn spec_formatar_horario(s: Seq<char>, seg: Seq<char>) -> Seq<char>
    decreases s.len(),
{
    if s.len() == 0 {
        spec_pad(seg)
    } else if s[0] == '/' {
        spec_pad(seg) + seq!['\n'] + spec_formatar_horario(s.drop_first(), Seq::empty())
    } else if s[0] == '-' {
        spec_pad(seg) + seq![' '] + spec_formatar_horario(s.drop_first(), Seq::empty())
    } else if s[0] == ':' {
        spec_formatar_horario(s.drop_first(), seg)
    } else {
        spec_formatar_horario(s.drop_first(), seg.push(s[0]))
    }
}

/// A slot label made printable, exactly as `spec_formatar_horario` states.
#[verifier::loop_isolation(false)]
pub fn formatar_horario(horario: &String) -> (r: String)
    ensures
        r@ == spec_formatar_horario(horario@, Seq::empty()),
{
    let s = horario.as_str();
    let n = s.unicode_len();
    let mut saida = String::new();
    let mut segmento: Vec<char> = Vec::new();
    let mut i: usize = 0;
    proof {
        assert(horario@.skip(0) =~= horario@);
    }
    while i < n
        invariant
            n == s@.len(),
            s@ == horario@,
            0 <= i <= n,
            spec_formatar_horario(horario@, Seq::empty()) == saida@ + spec_formatar_horario(
                horario@.skip(i as int),
                segmento@,
            ),
        decreases n - i,
    {
        let ghost resto = horario@.skip(i as int);
        proof {
            assert(resto.drop_first() =~= horario@.skip(i + 1));
            assert(resto[0] == horario@[i as int]);
        }
        let c = s.get_char(i);
        let ghost seg_antes = segmento@;
        if c == '/' || c == '-' {
            emitir_segmento(&mut saida, &segmento);
            acrescentar_char(&mut saida, if c == '/' {
                '\n'
            } else {
                ' '
            });
            segmento = Vec::new();
            proof {
                assert(segmento@ =~= Seq::<char>::empty());
                assert(saida@ + spec_formatar_horario(horario@.skip(i + 1), segmento@)
                    =~= spec_formatar_horario(horario@, Seq::empty()));
            }
        } else if c != ':' {
            segmento.push(c);
            proof {
                assert(saida@ + spec_formatar_horario(horario@.skip(i + 1), segmento@)
                    =~= spec_formatar_horario(horario@, Seq::empty()));
            }
        } else {
            proof {
                assert(saida@ + spec_formatar_horario(horario@.skip(i + 1), segmento@)
                    =~= spec_formatar_horario(horario@, Seq::empty()));
            }
        }
        i = i + 1;
    }
    proof {
        assert(horario@.skip(n as int) =~= Seq::<char>::empty());
    }
    emitir_segmento(&mut saida, &segmento);
    saida
}

/// Writes one cleaned hour, padded to four digits by its length.
fn emitir_segmento(saida: &mut String, segmento: &Vec<char>)
    ensures
        final(saida)@ == old(saida)@ + spec_pad(segmento@),
{
    proof {
        reveal_strlit("0");
        reveal_strlit("00");
        reveal_strlit("000");
    }
    if segmento.len() == 3 {
        acrescentar_char(saida, '0');
    } else if segmento.len() == 1 {
        acrescentar_char(saida, '0');
        acrescentar_char(saida, '0');
        acrescentar_char(saida, '0');
    } else if segmento.len() == 2 {
        acrescentar_char(saida, '0');
        acrescentar_char(saida, '0');
    }
    let ghost meio = saida@;
    let mut j: usize = 0;
    while j < segmento.len()
        invariant
            0 <= j <= segmento@.len(),
            saida@ == meio + segmento@.take(j as int),
            meio == old(saida)@ + (if segmento@.len() == 3 {
                "0"@
            } else if segmento@.len() == 1 {
                "000"@
            } else if segmento@.len() == 2 {
                "00"@
            } else {
                Seq::<char>::empty()
            }),
            "0"@ =~= seq!['0'],
            "00"@ =~= seq!['0', '0'],
            "000"@ =~= seq!['0', '0', '0'],
        decreases segmento@.len() - j,
    {
        acrescentar_char(saida, segmento[j]);
        proof {
            assert(segmento@.take(j + 1) =~= segmento@.take(j as int).push(segmento@[j as int]));
            assert(saida@ =~= meio + segmento@.take(j + 1));
        }
        j = j + 1;
    }
    proof {
        assert(segmento@.take(segmento@.len() as int) =~= segmento@);
        assert(final(saida)@ =~= old(saida)@ + spec_pad(segmento@));
    }
}

} // verus!
