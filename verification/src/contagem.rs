//! The fairness-counter store: one tally per person, read and updated by the
//! roster generator.  It is kept as a list of records; lookups and updates go
//! by the first record whose id matches, so the list behaves as a map.

use vstd::prelude::*;
use crate::tipos::{ContagemUtilizador, TipoServico};

verus! {

/// One person's fairness tally.
#[derive(Clone, Debug)]
pub struct RegistoContagem {
    pub user_id: String,
    pub contagem: ContagemUtilizador,
}

/// The fairness counters of everyone: person id mapped to tallies.  A person
/// without a record counts as all zeroes.
#[derive(Clone, Debug)]
pub struct Contagem {
    pub registos: Vec<RegistoContagem>,
}

/// The tally recorded for `id`: the first matching record, or all zeroes.
pub open spec fn contagem_de(s: Seq<RegistoContagem>, id: Seq<char>) -> ContagemUtilizador
    decreases s.len(),
{
    if s.len() == 0 {
        ContagemUtilizador { rn: 0, rd: 0, retem: 0 }
    } else if s[0].user_id@ == id {
        s[0].contagem
    } else {
        contagem_de(s.drop_first(), id)
    }
}

/// The counter bucket that a routine type credits: normal routine, standby,
/// or the shared special-routine bucket.
pub open spec fn spec_balde(c: ContagemUtilizador, tipo: TipoServico) -> u32 {
    match tipo {
        TipoServico::RN => c.rn,
        TipoServico::Retem => c.retem,
        _ => c.rd,
    }
}

/// The tally `c` with the bucket of `tipo` replaced by `v`.
pub open spec fn com_balde(c: ContagemUtilizador, tipo: TipoServico, v: u32) -> ContagemUtilizador {
    match tipo {
        TipoServico::RN => ContagemUtilizador { rn: v, ..c },
        TipoServico::Retem => ContagemUtilizador { retem: v, ..c },
        _ => ContagemUtilizador { rd: v, ..c },
    }
}

/// Between two counter states, no bucket of anyone grew by more than `k`.
pub open spec fn cresce_no_maximo(antes: Contagem, depois: Contagem, k: nat) -> bool {
    forall|id: Seq<char>|
        {
            let a = contagem_de(antes.registos@, id);
            let d = #[trigger] contagem_de(depois.registos@, id);
            d.rn <= a.rn + k && d.rd <= a.rd + k && d.retem <= a.retem + k
        }
}

/// Between two counter states, no bucket of anyone decreased.
pub open spec fn nao_diminui(antes: Contagem, depois: Contagem) -> bool {
    forall|id: Seq<char>|
        {
            let a = contagem_de(antes.registos@, id);
            let d = #[trigger] contagem_de(depois.registos@, id);
            a.rn <= d.rn && a.rd <= d.rd && a.retem <= d.retem
        }
}

/// Every bucket of everyone still has room for `m` more increments.
pub open spec fn folga(c: Contagem, m: nat) -> bool {
    forall|id: Seq<char>|
        {
            let v = #[trigger] contagem_de(c.registos@, id);
            v.rn + m <= u32::MAX && v.rd + m <= u32::MAX && v.retem + m <= u32::MAX
        }
}

/// Headroom is monotone: room for `m` increments is room for fewer.
pub proof fn lema_folga_monotona(c: Contagem, m: nat, n: nat)
    requires
        folga(c, m),
        n <= m,
    ensures
        folga(c, n),
{
}

/// After at most `k` increments out of `m` of headroom, `m - k` remain.
pub proof fn lema_folga_apos(antes: Contagem, depois: Contagem, m: nat, k: nat)
    requires
        folga(antes, m),
        cresce_no_maximo(antes, depois, k),
        k <= m,
    ensures
        folga(depois, (m - k) as nat),
{
    assert forall|id: Seq<char>|
        {
            let v = #[trigger] contagem_de(depois.registos@, id);
            v.rn + (m - k) <= u32::MAX && v.rd + (m - k) <= u32::MAX && v.retem + (m - k)
                <= u32::MAX
        } by {
        let a = contagem_de(antes.registos@, id);
        let d = contagem_de(depois.registos@, id);
        assert(d.rn <= a.rn + k && d.rd <= a.rd + k && d.retem <= a.retem + k);
    }
}

/// Bounded growth is monotone in the bound.
pub proof fn lema_cresce_monotono(a: Contagem, b: Contagem, k: nat, m: nat)
    requires
        cresce_no_maximo(a, b, k),
        k <= m,
    ensures
        cresce_no_maximo(a, b, m),
{
    assert forall|id: Seq<char>|
        {
            let x = contagem_de(a.registos@, id);
            let d = #[trigger] contagem_de(b.registos@, id);
            d.rn <= x.rn + m && d.rd <= x.rd + m && d.retem <= x.retem + m
        } by {
        assert(contagem_de(b.registos@, id).rn <= contagem_de(a.registos@, id).rn + k);
    }
}

/// Bounded growth composes across two steps.
pub proof fn lema_cresce_transitivo(a: Contagem, b: Contagem, c: Contagem, k1: nat, k2: nat)
    requires
        cresce_no_maximo(a, b, k1),
        cresce_no_maximo(b, c, k2),
    ensures
        cresce_no_maximo(a, c, k1 + k2),
{
    assert forall|id: Seq<char>|
        {
            let x = contagem_de(a.registos@, id);
            let z = #[trigger] contagem_de(c.registos@, id);
            z.rn <= x.rn + (k1 + k2) && z.rd <= x.rd + (k1 + k2) && z.retem <= x.retem + (k1 + k2)
        } by {
        let y = contagem_de(b.registos@, id);
        assert(y.rn <= contagem_de(a.registos@, id).rn + k1);
        assert(contagem_de(c.registos@, id).rn <= y.rn + k2);
    }
}

/// Monotone growth composes across two steps.
pub proof fn lema_nao_diminui_transitivo(a: Contagem, b: Contagem, c: Contagem)
    requires
        nao_diminui(a, b),
        nao_diminui(b, c),
    ensures
        nao_diminui(a, c),
{
    assert forall|id: Seq<char>|
        {
            let x = contagem_de(a.registos@, id);
            let z = #[trigger] contagem_de(c.registos@, id);
            x.rn <= z.rn && x.rd <= z.rd && x.retem <= z.retem
        } by {
        let y = contagem_de(b.registos@, id);
        assert(contagem_de(a.registos@, id).rn <= y.rn);
        assert(y.rn <= contagem_de(c.registos@, id).rn);
    }
}

proof fn lema_skip_passo(s: Seq<RegistoContagem>, i: int)
    requires
        0 <= i < s.len(),
    ensures
        s.skip(i).drop_first() =~= s.skip(i + 1),
        s.skip(i)[0] == s[i],
{
}

/// A prefix without a matching id does not change the lookup.
proof fn lema_contagem_salta(s: Seq<RegistoContagem>, id: Seq<char>, i: int)
    requires
        0 <= i <= s.len(),
        forall|k: int| 0 <= k < i ==> (#[trigger] s[k]).user_id@ != id,
    ensures
        contagem_de(s, id) == contagem_de(s.skip(i), id),
    decreases i,
{
    if i > 0 {
        lema_contagem_salta(s, id, i - 1);
        lema_skip_passo(s, i - 1);
        assert(contagem_de(s.skip(i - 1), id) == contagem_de(s.skip(i), id));
    } else {
        assert(s.skip(0) =~= s);
    }
}

impl Contagem {
    /// An empty counter store.
    pub fn nova() -> (r: Contagem)
        ensures
            r.registos@.len() == 0,
    {
        Contagem { registos: Vec::new() }
    }

    /// The tally of `id` (all zeroes when no record exists).
    #[verifier::loop_isolation(false)]
    pub fn obter(&self, id: &String) -> (r: ContagemUtilizador)
        ensures
            r == contagem_de(self.registos@, id@),
    {
        let mut i: usize = 0;
        while i < self.registos.len()
            invariant
                0 <= i <= self.registos@.len(),
                forall|k: int| 0 <= k < i ==> (#[trigger] self.registos@[k]).user_id@ != id@,
            decreases self.registos@.len() - i,
        {
            if self.registos[i].user_id.eq(id) {
                proof {
                    lema_contagem_salta(self.registos@, id@, i as int);
                    assert(self.registos@.skip(i as int)[0] == self.registos@[i as int]);
                }
                return self.registos[i].contagem;
            }
            i = i + 1;
        }
        proof {
            lema_contagem_salta(self.registos@, id@, i as int);
        }
        ContagemUtilizador { rn: 0, rd: 0, retem: 0 }
    }

    /// Credits one service of the given routine type to `id`: that person's
    /// bucket rises by exactly one and nobody else's tally moves.
    #[verifier::loop_isolation(false)]
    pub fn incrementar(&mut self, id: &String, tipo: TipoServico)
        requires
            spec_balde(contagem_de(old(self).registos@, id@), tipo) < u32::MAX,
        ensures
            contagem_de(final(self).registos@, id@) == com_balde(
                contagem_de(old(self).registos@, id@),
                tipo,
                (spec_balde(contagem_de(old(self).registos@, id@), tipo) + 1) as u32,
            ),
            forall|outro: Seq<char>|
                outro != id@ ==> #[trigger] contagem_de(final(self).registos@, outro)
                    == contagem_de(old(self).registos@, outro),
            cresce_no_maximo(*old(self), *final(self), 1),
            nao_diminui(*old(self), *final(self)),
    {
        let ghost antes = self.registos@;
        let mut i: usize = 0;
        while i < self.registos.len()
            invariant
                self.registos@ == antes,
                0 <= i <= antes.len(),
                forall|k: int| 0 <= k < i ==> (#[trigger] antes[k]).user_id@ != id@,
            decreases antes.len() - i,
        {
            if self.registos[i].user_id.eq(id) {
                let atual = self.registos[i].contagem;
                proof {
                    lema_contagem_salta(antes, id@, i as int);
                    assert(antes.skip(i as int)[0] == antes[i as int]);
                    assert(atual == contagem_de(antes, id@));
                }
                let nova = match tipo {
                    TipoServico::RN => ContagemUtilizador { rn: atual.rn + 1, ..atual },
                    TipoServico::Retem => ContagemUtilizador { retem: atual.retem + 1, ..atual },
                    _ => ContagemUtilizador { rd: atual.rd + 1, ..atual },
                };
                self.registos[i].contagem = nova;
                proof {
                    Self::lema_atualizar(antes, self.registos@, i as int, id@, nova);
                }
                return;
            }
            i = i + 1;
        }
        proof {
            lema_contagem_salta(antes, id@, antes.len() as int);
            assert(antes.skip(antes.len() as int) =~= Seq::empty());
        }
        let zero = ContagemUtilizador { rn: 0, rd: 0, retem: 0 };
        let nova = match tipo {
            TipoServico::RN => ContagemUtilizador { rn: 1, ..zero },
            TipoServico::Retem => ContagemUtilizador { retem: 1, ..zero },
            _ => ContagemUtilizador { rd: 1, ..zero },
        };
        self.registos.push(RegistoContagem { user_id: id.clone(), contagem: nova });
        proof {
            Self::lema_acrescentar(antes, self.registos@, id@, nova);
        }
    }

    /// Updating the record at `i`, the first whose id is `id`, changes that
    /// id's lookup and nobody else's.
    proof fn lema_atualizar(
        antes: Seq<RegistoContagem>,
        depois: Seq<RegistoContagem>,
        i: int,
        id: Seq<char>,
        nova: ContagemUtilizador,
    )
        requires
            0 <= i < antes.len(),
            antes[i].user_id@ == id,
            forall|k: int| 0 <= k < i ==> (#[trigger] antes[k]).user_id@ != id,
            depois =~= antes.update(i, RegistoContagem { user_id: antes[i].user_id, contagem: nova }),
        ensures
            contagem_de(depois, id) == nova,
            forall|outro: Seq<char>|
                outro != id ==> #[trigger] contagem_de(depois, outro) == contagem_de(antes, outro),
        decreases i,
    {
        if i == 0 {
            assert forall|outro: Seq<char>| outro != id implies #[trigger] contagem_de(depois, outro)
                == contagem_de(antes, outro) by {
                assert(depois.drop_first() =~= antes.drop_first());
                assert(depois[0].user_id@ == id);
                assert(contagem_de(depois, outro) == contagem_de(depois.drop_first(), outro));
                assert(contagem_de(antes, outro) == contagem_de(antes.drop_first(), outro));
            }
            assert(depois[0].user_id@ == id);
        } else {
            assert(depois.drop_first() =~= antes.drop_first().update(
                i - 1,
                RegistoContagem { user_id: antes[i].user_id, contagem: nova },
            ));
            assert(forall|k: int|
                0 <= k < i - 1 ==> (#[trigger] antes.drop_first()[k]).user_id@ != id
                    && antes.drop_first()[k] == antes[k + 1]);
            Self::lema_atualizar(antes.drop_first(), depois.drop_first(), i - 1, id, nova);
            assert(depois[0] == antes[0]);
            assert(antes[0].user_id@ != id);
            assert(contagem_de(depois, id) == contagem_de(depois.drop_first(), id));
            assert(contagem_de(antes, id) == contagem_de(antes.drop_first(), id));
            assert forall|outro: Seq<char>| outro != id implies #[trigger] contagem_de(depois, outro)
                == contagem_de(antes, outro) by {
                if antes[0].user_id@ != outro {
                    assert(contagem_de(depois, outro) == contagem_de(depois.drop_first(), outro));
                    assert(contagem_de(antes, outro) == contagem_de(antes.drop_first(), outro));
                }
            }
        }
    }

    /// Appending a record for an id absent so far sets that id's lookup and
    /// leaves every other lookup as it was.
    proof fn lema_acrescentar(
        antes: Seq<RegistoContagem>,
        depois: Seq<RegistoContagem>,
        id: Seq<char>,
        nova: ContagemUtilizador,
    )
        requires
            forall|k: int| 0 <= k < antes.len() ==> (#[trigger] antes[k]).user_id@ != id,
            depois.len() == antes.len() + 1,
            depois[antes.len() as int].user_id@ == id,
            depois[antes.len() as int].contagem == nova,
            forall|k: int| 0 <= k < antes.len() ==> depois[k] == antes[k],
        ensures
            contagem_de(depois, id) == nova,
            forall|outro: Seq<char>|
                outro != id ==> #[trigger] contagem_de(depois, outro) == contagem_de(antes, outro),
        decreases antes.len(),
    {
        if antes.len() == 0 {
            assert(depois[0].user_id@ == id);
            assert forall|outro: Seq<char>| outro != id implies #[trigger] contagem_de(depois, outro)
                == contagem_de(antes, outro) by {
                assert(depois.drop_first() =~= antes);
                assert(contagem_de(depois, outro) == contagem_de(depois.drop_first(), outro));
            }
        } else {
            assert(forall|k: int|
                0 <= k < antes.drop_first().len() ==> (#[trigger] antes.drop_first()[k]).user_id@
                    != id && antes.drop_first()[k] == antes[k + 1]);
            assert(depois.drop_first()[antes.drop_first().len() as int] == depois[antes.len() as int]);
            assert(forall|k: int|
                0 <= k < antes.drop_first().len() ==> #[trigger] depois.drop_first()[k] == antes.drop_first()[k]);
            Self::lema_acrescentar(antes.drop_first(), depois.drop_first(), id, nova);
            assert(depois[0] == antes[0]);
            assert forall|outro: Seq<char>| outro != id implies #[trigger] contagem_de(depois, outro)
                == contagem_de(antes, outro) by {
                if antes[0].user_id@ != outro {
                    assert(contagem_de(depois, outro) == contagem_de(depois.drop_first(), outro));
                    assert(contagem_de(antes, outro) == contagem_de(antes.drop_first(), outro));
                }
            }
            if antes[0].user_id@ != id {
                assert(contagem_de(depois, id) == contagem_de(depois.drop_first(), id));
            }
        }
    }
}

} // verus!
