//! The debt ledger: per debtor, the list of outstanding debts.  Debts are
//! created by approved coverage trades and obligatory substitutions, and are
//! settled (each ledger entry removed at most once) after a generation run.

use vstd::prelude::*;
use crate::tipos::Divida;

verus! {

/// The debts one person owes, in the order they were recorded.
#[derive(Clone, Debug)]
pub struct RegistoDividas {
    pub devedor: String,
    pub dividas: Vec<Divida>,
}

/// The whole ledger: debtor id mapped to outstanding debts.  A debtor without
/// a record owes nothing.
#[derive(Clone, Debug)]
pub struct DividasAtivas {
    pub registos: Vec<RegistoDividas>,
}

/// One settlement event of a generation run: the debtor and the debt that a
/// creditor worked off.
#[derive(Clone, Debug)]
pub struct DividaPaga {
    pub devedor: String,
    pub divida: Divida,
}

/// The debts recorded for `dev`: the first matching record, or none.
pub open spec fn dividas_de(s: Seq<RegistoDividas>, dev: Seq<char>) -> Seq<Divida>
    decreases s.len(),
{
    if s.len() == 0 {
        Seq::empty()
    } else if s[0].devedor@ == dev {
        s[0].dividas@
    } else {
        dividas_de(s.drop_first(), dev)
    }
}

/// How many debts in the list name the same creditor and category as `d`.
pub open spec fn conta_iguais(l: Seq<Divida>, d: Divida) -> nat
    decreases l.len(),
{
    if l.len() == 0 {
        0
    } else {
        (if l[0].spec_igual(d) {
            1nat
        } else {
            0nat
        }) + conta_iguais(l.drop_first(), d)
    }
}

/// How many debts equal to `d` the ledger holds under `dev`.
pub open spec fn conta(s: Seq<RegistoDividas>, dev: Seq<char>, d: Divida) -> nat {
    conta_iguais(dividas_de(s, dev), d)
}

/// The first debt in the list equal to `d`, or `-1`.
pub open spec fn indice_igual(l: Seq<Divida>, d: Divida) -> int
    decreases l.len(),
{
    if l.len() == 0 {
        -1
    } else if l[0].spec_igual(d) {
        0
    } else {
        let r = indice_igual(l.drop_first(), d);
        if r == -1 {
            -1
        } else {
            r + 1
        }
    }
}

/// How many settlement events in `pagas` name this debtor and this debt.
pub open spec fn conta_pagas(p: Seq<DividaPaga>, dev: Seq<char>, d: Divida) -> nat
    decreases p.len(),
{
    if p.len() == 0 {
        0
    } else {
        (if p[0].devedor@ == dev && p[0].divida.spec_igual(d) {
            1nat
        } else {
            0nat
        }) + conta_pagas(p.drop_first(), dev, d)
    }
}

/// Counting settlement events distributes over concatenation.
pub proof fn lema_conta_pagas_concat(p1: Seq<DividaPaga>, p2: Seq<DividaPaga>, dev: Seq<char>, d: Divida)
    ensures
        conta_pagas(p1 + p2, dev, d) == conta_pagas(p1, dev, d) + conta_pagas(p2, dev, d),
    decreases p1.len(),
{
    if p1.len() == 0 {
        assert(p1 + p2 =~= p2);
    } else {
        assert((p1 + p2).drop_first() =~= p1.drop_first() + p2);
        assert((p1 + p2)[0] == p1[0]);
        lema_conta_pagas_concat(p1.drop_first(), p2, dev, d);
    }
}

/// A missing match and a zero count are the same thing.
pub proof fn lema_indice_conta(l: Seq<Divida>, d: Divida)
    ensures
        (indice_igual(l, d) == -1) <==> (conta_iguais(l, d) == 0),
        indice_igual(l, d) != -1 ==> 0 <= indice_igual(l, d) < l.len() && l[indice_igual(l, d)].spec_igual(d),
    decreases l.len(),
{
    if l.len() > 0 {
        lema_indice_conta(l.drop_first(), d);
        if !l[0].spec_igual(d) && indice_igual(l.drop_first(), d) != -1 {
            assert(l[indice_igual(l, d)] == l.drop_first()[indice_igual(l.drop_first(), d)]);
        }
    }
}

/// Removing the element at `i` lowers the count of exactly the debts that
/// element equals, by one.
pub proof fn lema_conta_remocao(l: Seq<Divida>, i: int, d: Divida)
    requires
        0 <= i < l.len(),
    ensures
        conta_iguais(l.remove(i), d) == conta_iguais(l, d) - (if l[i].spec_igual(d) {
            1int
        } else {
            0int
        }),
    decreases i,
{
    if i == 0 {
        assert(l.remove(0) =~= l.drop_first());
    } else {
        assert(l.remove(i).drop_first() =~= l.drop_first().remove(i - 1));
        assert(l.remove(i)[0] == l[0]);
        assert(l.drop_first()[i - 1] == l[i]);
        lema_conta_remocao(l.drop_first(), i - 1, d);
    }
}

proof fn lema_dividas_salta(s: Seq<RegistoDividas>, dev: Seq<char>, i: int)
    requires
        0 <= i <= s.len(),
        forall|k: int| 0 <= k < i ==> (#[trigger] s[k]).devedor@ != dev,
    ensures
        dividas_de(s, dev) == dividas_de(s.skip(i), dev),
    decreases i,
{
    if i > 0 {
        lema_dividas_salta(s, dev, i - 1);
        assert(s.skip(i - 1).drop_first() =~= s.skip(i));
        assert(s.skip(i - 1)[0] == s[i - 1]);
    } else {
        assert(s.skip(0) =~= s);
    }
}

/// Updating the first record of `dev` rewrites that debtor's list and nobody
/// else's.
proof fn lema_atualizar_dividas(
    antes: Seq<RegistoDividas>,
    depois: Seq<RegistoDividas>,
    i: int,
    dev: Seq<char>,
    novas: Seq<Divida>,
)
    requires
        0 <= i < antes.len(),
        antes[i].devedor@ == dev,
        forall|k: int| 0 <= k < i ==> (#[trigger] antes[k]).devedor@ != dev,
        depois.len() == antes.len(),
        depois[i].devedor@ == dev,
        depois[i].dividas@ == novas,
        forall|k: int| 0 <= k < antes.len() && k != i ==> #[trigger] depois[k] == antes[k],
    ensures
        dividas_de(depois, dev) == novas,
        forall|outro: Seq<char>|
            outro != dev ==> #[trigger] dividas_de(depois, outro) == dividas_de(antes, outro),
    decreases i,
{
    if i == 0 {
        assert forall|outro: Seq<char>| outro != dev implies #[trigger] dividas_de(depois, outro)
            == dividas_de(antes, outro) by {
            assert(depois.drop_first() =~= antes.drop_first());
            assert(dividas_de(depois, outro) == dividas_de(depois.drop_first(), outro));
            assert(dividas_de(antes, outro) == dividas_de(antes.drop_first(), outro));
        }
    } else {
        assert(forall|k: int|
            0 <= k < i - 1 ==> (#[trigger] antes.drop_first()[k]).devedor@ != dev
                && antes.drop_first()[k] == antes[k + 1]);
        assert(forall|k: int|
            0 <= k < antes.drop_first().len() && k != i - 1 ==> #[trigger] depois.drop_first()[k]
                == antes.drop_first()[k]);
        assert(depois.drop_first()[i - 1] == depois[i]);
        lema_atualizar_dividas(antes.drop_first(), depois.drop_first(), i - 1, dev, novas);
        assert(depois[0] == antes[0]);
        assert(antes[0].devedor@ != dev);
        assert(dividas_de(depois, dev) == dividas_de(depois.drop_first(), dev));
        assert(dividas_de(antes, dev) == dividas_de(antes.drop_first(), dev));
        assert forall|outro: Seq<char>| outro != dev implies #[trigger] dividas_de(depois, outro)
            == dividas_de(antes, outro) by {
            if antes[0].devedor@ != outro {
                assert(dividas_de(depois, outro) == dividas_de(depois.drop_first(), outro));
                assert(dividas_de(antes, outro) == dividas_de(antes.drop_first(), outro));
            }
        }
    }
}

/// Appending a record for a debtor absent so far sets that debtor's list and
/// leaves every other list as it was.
proof fn lema_acrescentar_dividas(
    antes: Seq<RegistoDividas>,
    depois: Seq<RegistoDividas>,
    dev: Seq<char>,
    novas: Seq<Divida>,
)
    requires
        forall|k: int| 0 <= k < antes.len() ==> (#[trigger] antes[k]).devedor@ != dev,
        depois.len() == antes.len() + 1,
        depois[antes.len() as int].devedor@ == dev,
        depois[antes.len() as int].dividas@ == novas,
        forall|k: int| 0 <= k < antes.len() ==> #[trigger] depois[k] == antes[k],
    ensures
        dividas_de(depois, dev) == novas,
        forall|outro: Seq<char>|
            outro != dev ==> #[trigger] dividas_de(depois, outro) == dividas_de(antes, outro),
    decreases antes.len(),
{
    if antes.len() == 0 {
        assert(depois[0].devedor@ == dev);
        assert forall|outro: Seq<char>| outro != dev implies #[trigger] dividas_de(depois, outro)
            == dividas_de(antes, outro) by {
            assert(depois.drop_first() =~= antes);
            assert(dividas_de(depois, outro) == dividas_de(depois.drop_first(), outro));
        }
    } else {
        assert(forall|k: int|
            0 <= k < antes.drop_first().len() ==> (#[trigger] antes.drop_first()[k]).devedor@ != dev
                && antes.drop_first()[k] == antes[k + 1]);
        assert(depois.drop_first()[antes.drop_first().len() as int] == depois[antes.len() as int]);
        assert(forall|k: int|
            0 <= k < antes.drop_first().len() ==> #[trigger] depois.drop_first()[k]
                == antes.drop_first()[k]);
        lema_acrescentar_dividas(antes.drop_first(), depois.drop_first(), dev, novas);
        assert(depois[0] == antes[0]);
        assert(antes[0].devedor@ != dev);
        assert(dividas_de(depois, dev) == dividas_de(depois.drop_first(), dev));
        assert(dividas_de(antes, dev) == dividas_de(antes.drop_first(), dev));
        assert forall|outro: Seq<char>| outro != dev implies #[trigger] dividas_de(depois, outro)
            == dividas_de(antes, outro) by {
            if antes[0].devedor@ != outro {
                assert(dividas_de(depois, outro) == dividas_de(depois.drop_first(), outro));
                assert(dividas_de(antes, outro) == dividas_de(antes.drop_first(), outro));
            }
        }
    }
}

impl DividasAtivas {
    /// An empty ledger.
    pub fn nova() -> (r: DividasAtivas)
        ensures
            r.registos@.len() == 0,
    {
        DividasAtivas { registos: Vec::new() }
    }

    /// The first record of `dev`, if any, with the first-match facts needed
    /// to reason about the lookup.
    #[verifier::loop_isolation(false)]
    pub fn indice_devedor(&self, dev: &String) -> (r: Option<usize>)
        ensures
            match r {
                Some(i) => i < self.registos@.len() && self.registos@[i as int].devedor@ == dev@
                    && dividas_de(self.registos@, dev@) == self.registos@[i as int].dividas@
                    && (forall|k: int|
                    0 <= k < i ==> (#[trigger] self.registos@[k]).devedor@ != dev@),
                None => dividas_de(self.registos@, dev@) == Seq::<Divida>::empty() && (forall|k: int|
                    0 <= k < self.registos@.len() ==> (#[trigger] self.registos@[k]).devedor@
                        != dev@),
            },
    {
        let mut i: usize = 0;
        while i < self.registos.len()
            invariant
                0 <= i <= self.registos@.len(),
                forall|k: int| 0 <= k < i ==> (#[trigger] self.registos@[k]).devedor@ != dev@,
            decreases self.registos@.len() - i,
        {
            if self.registos[i].devedor.eq(dev) {
                proof {
                    lema_dividas_salta(self.registos@, dev@, i as int);
                    assert(self.registos@.skip(i as int)[0] == self.registos@[i as int]);
                }
                return Some(i);
            }
            i = i + 1;
        }
        proof {
            lema_dividas_salta(self.registos@, dev@, i as int);
            assert(self.registos@.skip(i as int) =~= Seq::empty());
        }
        None
    }

    /// Records a new debt of `dev`: it is appended to that debtor's list, and
    /// nobody else's list moves.
    pub fn adicionar(&mut self, dev: &String, d: Divida)
        ensures
            dividas_de(final(self).registos@, dev@) == dividas_de(old(self).registos@, dev@).push(d),
            forall|outro: Seq<char>|
                outro != dev@ ==> #[trigger] dividas_de(final(self).registos@, outro)
                    == dividas_de(old(self).registos@, outro),
    {
        let ghost antes = self.registos@;
        match self.indice_devedor(dev) {
            Some(i) => {
                let ghost velhas = self.registos@[i as int].dividas@;
                self.registos[i].dividas.push(d);
                proof {
                    lema_atualizar_dividas(
                        antes,
                        self.registos@,
                        i as int,
                        dev@,
                        velhas.push(d),
                    );
                }
            },
            None => {
                self.registos.push(
                    RegistoDividas { devedor: dev.clone(), dividas: vec![d] },
                );
                proof {
                    assert(self.registos@[antes.len() as int].dividas@ =~= seq![d]);
                    lema_acrescentar_dividas(antes, self.registos@, dev@, seq![d]);
                    assert(dividas_de(antes, dev@).push(d) =~= seq![d]);
                }
            },
        }
    }

    /// Settles one paid debt: the first ledger entry of `dev` equal to `d`
    /// is removed; with no such entry the ledger does not move.  Every other
    /// debtor's list, and every other debt of `dev`, stays.
    #[verifier::loop_isolation(false)]
    pub fn remover_primeira(&mut self, dev: &String, d: &Divida)
        ensures
            ({
                let l = dividas_de(old(self).registos@, dev@);
                let idx = indice_igual(l, *d);
                &&& (idx == -1 ==> final(self).registos@ == old(self).registos@)
                &&& (idx != -1 ==> dividas_de(final(self).registos@, dev@) == l.remove(idx))
                &&& forall|outro: Seq<char>|
                    outro != dev@ ==> #[trigger] dividas_de(final(self).registos@, outro)
                        == dividas_de(old(self).registos@, outro)
            }),
    {
        let ghost antes = self.registos@;
        let ghost l = dividas_de(antes, dev@);
        let i = match self.indice_devedor(dev) {
            Some(i) => i,
            None => {
                proof {
                    lema_indice_conta(l, *d);
                    assert(indice_igual(l, *d) == -1);
                }
                return ;
            },
        };
        let n = self.registos[i].dividas.len();
        let mut j: usize = 0;
        while j < n
            invariant
                self.registos@ == antes,
                0 <= j <= n,
                n == l.len(),
                l == antes[i as int].dividas@,
                forall|k: int| 0 <= k < j ==> !(#[trigger] l[k]).spec_igual(*d),
            decreases n - j,
        {
            if self.registos[i].dividas[j].igual(d) {
                proof {
                    lema_indice_salta(l, *d, j as int);
                    assert(l.skip(j as int)[0] == l[j as int]);
                    assert(indice_igual(l, *d) == j as int);
                }
                let ghost velhas = self.registos@[i as int].dividas@;
                self.registos[i].dividas.remove(j);
                proof {
                    lema_atualizar_dividas(
                        antes,
                        self.registos@,
                        i as int,
                        dev@,
                        velhas.remove(j as int),
                    );
                }
                return ;
            }
            j = j + 1;
        }
        proof {
            lema_indice_salta(l, *d, n as int);
            assert(l.skip(n as int) =~= Seq::empty());
            assert(indice_igual(l, *d) == -1);
        }
    }

    /// Applies the settlement events of a finished generation run.  Each
    /// ledger entry is removed at most once: a debt's count under a debtor
    /// falls by exactly the number of matching settlement events, and never
    /// below zero; nothing is ever added.
    #[verifier::loop_isolation(false)]
    pub fn liquidar(&mut self, pagas: &Vec<DividaPaga>)
        ensures
            forall|dev: Seq<char>, d: Divida|
                #[trigger] conta(final(self).registos@, dev, d) == conta(old(self).registos@, dev, d)
                    - menor(conta(old(self).registos@, dev, d), conta_pagas(pagas@, dev, d)),
    {
        let ghost orig = self.registos@;
        let mut i: usize = 0;
        while i < pagas.len()
            invariant
                0 <= i <= pagas@.len(),
                forall|dev: Seq<char>, d: Divida|
                    #[trigger] conta(self.registos@, dev, d) == conta(orig, dev, d) - menor(
                        conta(orig, dev, d),
                        conta_pagas(pagas@.take(i as int), dev, d),
                    ),
            decreases pagas@.len() - i,
        {
            let ghost cur = self.registos@;
            let ghost dev0 = pagas@[i as int].devedor@;
            let ghost d0 = pagas@[i as int].divida;
            self.remover_primeira(&pagas[i].devedor, &pagas[i].divida);
            proof {
                let lcur = dividas_de(cur, dev0);
                let idx = indice_igual(lcur, d0);
                lema_indice_conta(lcur, d0);
                if idx != -1 {
                    lema_conta_remocao(lcur, idx, d0);
                }
                assert forall|dev: Seq<char>, d: Divida|
                    #[trigger] conta(self.registos@, dev, d) == conta(orig, dev, d) - menor(
                        conta(orig, dev, d),
                        conta_pagas(pagas@.take(i + 1), dev, d),
                    ) by {
                    assert(pagas@.take(i + 1) =~= pagas@.take(i as int) + seq![pagas@[i as int]]);
                    lema_conta_pagas_concat(
                        pagas@.take(i as int),
                        seq![pagas@[i as int]],
                        dev,
                        d,
                    );
                    assert(seq![pagas@[i as int]].drop_first() =~= Seq::<DividaPaga>::empty());
                    assert(seq![pagas@[i as int]][0] == pagas@[i as int]);
                    assert(conta_pagas(Seq::<DividaPaga>::empty(), dev, d) == 0);
                    assert(conta_pagas(seq![pagas@[i as int]], dev, d) == (if dev0 == dev
                        && d0.spec_igual(d) {
                        1nat
                    } else {
                        0nat
                    }));
                    assert(conta(cur, dev, d) == conta(orig, dev, d) - menor(
                        conta(orig, dev, d),
                        conta_pagas(pagas@.take(i as int), dev, d),
                    ));
                    if dev == dev0 {
                        if d0.spec_igual(d) {
                            lema_conta_equivalente(lcur, d, d0);
                            if idx != -1 {
                                lema_conta_remocao(lcur, idx, d);
                                assert(conta_iguais(lcur, d0) != 0);
                                assert(conta(self.registos@, dev, d) == conta(cur, dev, d) - 1);
                            } else {
                                assert(conta_iguais(lcur, d0) == 0);
                                assert(conta(cur, dev, d) == 0);
                                assert(self.registos@ == cur);
                            }
                        } else {
                            if idx != -1 {
                                lema_conta_remocao(lcur, idx, d);
                                assert(lcur[idx].spec_igual(d0));
                                assert(!lcur[idx].spec_igual(d));
                                assert(conta(self.registos@, dev, d) == conta(cur, dev, d));
                            } else {
                                assert(self.registos@ == cur);
                            }
                        }
                    } else {
                        assert(dividas_de(self.registos@, dev) == dividas_de(cur, dev));
                    }
                }
            }
            i = i + 1;
        }
        proof {
            assert(pagas@.take(pagas@.len() as int) =~= pagas@);
        }
    }
}

/// The lesser of two counts.
pub open spec fn menor(a: nat, b: nat) -> nat {
    if a <= b {
        a
    } else {
        b
    }
}

/// Debts equal to each other are counted alike.
pub proof fn lema_conta_equivalente(l: Seq<Divida>, d: Divida, d0: Divida)
    requires
        d0.spec_igual(d),
    ensures
        conta_iguais(l, d) == conta_iguais(l, d0),
    decreases l.len(),
{
    if l.len() > 0 {
        lema_conta_equivalente(l.drop_first(), d, d0);
    }
}

/// Skipping a prefix without matches shifts the first-match index.
proof fn lema_indice_salta(l: Seq<Divida>, d: Divida, j: int)
    requires
        0 <= j <= l.len(),
        forall|k: int| 0 <= k < j ==> !(#[trigger] l[k]).spec_igual(d),
    ensures
        indice_igual(l, d) == (if indice_igual(l.skip(j), d) == -1 {
            -1
        } else {
            j + indice_igual(l.skip(j), d)
        }),
    decreases j,
{
    if j > 0 {
        lema_indice_salta(l, d, j - 1);
        lema_indice_conta(l.skip(j), d);
        assert(l.skip(j - 1).drop_first() =~= l.skip(j));
        assert(l.skip(j - 1)[0] == l[j - 1]);
        assert(indice_igual(l.skip(j - 1), d) == (if indice_igual(l.skip(j), d) == -1 {
            -1int
        } else {
            1 + indice_igual(l.skip(j), d)
        }));
    } else {
        assert(l.skip(0) =~= l);
    }
}

} // verus!
