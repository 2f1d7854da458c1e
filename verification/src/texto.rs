//! Verified text utilities: membership in lists of strings, the numeric
//! suffix of a person id, and decimal rendering of counters for display
//! labels.

use vstd::prelude::*;
use vstd::string::StrSliceExecFns;

verus! {

/// The views of a sequence of strings.
pub open spec fn vistas(s: Seq<String>) -> Seq<Seq<char>> {
    s.map_values(|x: String| x@)
}

/// Adding a string to a list appends its view.
pub proof fn lema_vistas_push(s: Seq<String>, x: String)
    ensures
        vistas(s.push(x)) == vistas(s).push(x@),
{
    assert(vistas(s.push(x)) =~= vistas(s).push(x@));
}

/// Relies on std's `String::push`: appends one character to the string.
#[verifier::external_body]
pub fn acrescentar_char(s: &mut String, c: char)
    ensures
        final(s)@ == old(s)@.push(c),
{
    s.push(c);
}

/// Whether the list holds a string equal to `alvo`.
pub fn contem_str(v: &Vec<String>, alvo: &String) -> (r: bool)
    ensures
        r == vistas(v@).contains(alvo@),
{
    let mut i: usize = 0;
    while i < v.len()
        invariant
            0 <= i <= v.len(),
            forall|k: int| 0 <= k < i ==> v@[k]@ != alvo@,
        decreases v.len() - i,
    {
        if v[i].eq(alvo) {
            assert(vistas(v@)[i as int] == alvo@);
            return true;
        }
        i = i + 1;
    }
    assert(forall|k: int| 0 <= k < v@.len() ==> vistas(v@)[k] == v@[k]@);
    false
}

/// A decimal digit.
pub open spec fn e_digito(c: char) -> bool {
    48 <= c as u32 <= 57
}

/// Every character of the sequence is a decimal digit.
pub open spec fn todos_digitos(s: Seq<char>) -> bool {
    forall|i: int| 0 <= i < s.len() ==> e_digito(#[trigger] s[i])
}

/// The value of a sequence of decimal digits, most significant first.
pub open spec fn valor_digitos(s: Seq<char>) -> int
    decreases s.len(),
{
    if s.len() == 0 {
        0
    } else {
        valor_digitos(s.drop_last()) * 10 + (s.last() as u32 - 48)
    }
}

/// A digit sequence has a non-negative value.
pub proof fn lema_valor_nao_negativo(s: Seq<char>)
    requires
        todos_digitos(s),
    ensures
        valor_digitos(s) >= 0,
    decreases s.len(),
{
    if s.len() > 0 {
        assert(todos_digitos(s.drop_last())) by {
            assert(forall|i: int|
                0 <= i < s.len() - 1 ==> e_digito(#[trigger] s.drop_last()[i]) == e_digito(s[i]));
        }
        lema_valor_nao_negativo(s.drop_last());
    }
}

/// Appending digits never lowers the value: the value of a digit sequence is
/// at least the value of any of its prefixes.
pub proof fn lema_valor_prefixo(s: Seq<char>, n: int)
    requires
        todos_digitos(s),
        0 <= n <= s.len(),
    ensures
        valor_digitos(s) >= valor_digitos(s.take(n)),
    decreases s.len() - n,
{
    if n < s.len() {
        lema_valor_prefixo(s, n + 1);
        let t = s.take(n + 1);
        assert(t.drop_last() =~= s.take(n));
        assert(todos_digitos(t)) by {
            assert(forall|i: int| 0 <= i < t.len() ==> e_digito(#[trigger] t[i]) == e_digito(s[i]));
        }
        lema_valor_nao_negativo(t.drop_last());
        assert(valor_digitos(t) == valor_digitos(s.take(n)) * 10 + (t.last() as u32 - 48));
        assert(t.last() as u32 - 48 >= 0);
        assert(valor_digitos(s.take(n)) * 10 >= valor_digitos(s.take(n))) by (nonlinear_arith)
            requires valor_digitos(s.take(n)) >= 0;
    } else {
        assert(s.take(n) =~= s);
    }
}

/// The numeric suffix of a person id: the value of everything after the first
/// character, when that remainder is all digits and fits; `0` otherwise.
pub open spec fn spec_sufixo_numerico(id: Seq<char>) -> u32 {
    let resto = id.skip(1);
    if id.len() > 1 && todos_digitos(resto) && valor_digitos(resto) <= u32::MAX {
        valor_digitos(resto) as u32
    } else {
        0
    }
}

/// The numeric suffix of a person id, used as the deterministic tie-break of
/// the fairness order.
pub fn sufixo_numerico(id: &String) -> (r: u32)
    ensures
        r == spec_sufixo_numerico(id@),
{
    let s = id.as_str();
    let n = s.unicode_len();
    if n <= 1 {
        return 0;
    }
    let ghost resto = id@.skip(1);
    // First pass: every character after the first must be a digit.
    let mut i: usize = 1;
    while i < n
        invariant
            1 <= i <= n,
            n == id@.len(),
            s@ == id@,
            resto == id@.skip(1),
            forall|k: int| 0 <= k < i - 1 ==> e_digito(#[trigger] resto[k]),
        decreases n - i,
    {
        let c = s.get_char(i);
        let v = c as u32;
        if !(48 <= v && v <= 57) {
            assert(!e_digito(resto[i - 1]));
            return 0;
        }
        assert(e_digito(resto[i - 1]));
        i = i + 1;
    }
    assert(todos_digitos(resto));
    // Second pass: accumulate, giving 0 on overflow.
    let mut acc: u64 = 0;
    let mut j: usize = 1;
    while j < n
        invariant
            1 <= j <= n,
            n == id@.len(),
            s@ == id@,
            resto == id@.skip(1),
            todos_digitos(resto),
            acc == valor_digitos(resto.take(j - 1)),
            acc <= u32::MAX,
        decreases n - j,
    {
        let c = s.get_char(j);
        let v = (c as u32) as u64;
        assert(resto[j - 1] == id@[j as int]);
        assert(e_digito(c));
        assert(48 <= v <= 57);
        acc = acc * 10 + (v - 48);
        assert(resto.take(j - 1 + 1).drop_last() =~= resto.take(j - 1));
        assert(acc == valor_digitos(resto.take(j as int)));
        if acc > u32::MAX as u64 {
            proof {
                lema_valor_prefixo(resto, j as int);
            }
            return 0;
        }
        j = j + 1;
    }
    assert(resto.take(n - 1) =~= resto);
    acc as u32
}

/// A decimal digit as a character.
pub open spec fn char_digito(d: int) -> char {
    (d + 48) as char
}

/// The decimal rendering of a non-negative number, most significant digit
/// first.
pub open spec fn dec(n: int) -> Seq<char>
    decreases n,
{
    if n < 10 {
        seq![char_digito(n)]
    } else {
        dec(n / 10).push(char_digito(n % 10))
    }
}

fn dec_acrescentar(n: u32, s: &mut String)
    ensures
        final(s)@ == old(s)@ + dec(n as int),
    decreases n,
{
    if n < 10 {
        let c = ((48 + n as u8) as char);
        assert(c == char_digito(n as int));
        acrescentar_char(s, c);
        assert(s@ =~= old(s)@ + dec(n as int));
    } else {
        dec_acrescentar(n / 10, s);
        let d = n % 10;
        let c = ((48 + d as u8) as char);
        assert(c == char_digito(d as int));
        acrescentar_char(s, c);
        assert(s@ =~= old(s)@ + dec(n as int));
    }
}

/// The decimal rendering of `n`, for labels such as the forced-service
/// progress annotation.
pub fn u32_decimal(n: u32) -> (r: String)
    ensures
        r@ == dec(n as int),
{
    let mut s = String::new();
    dec_acrescentar(n, &mut s);
    assert(s@ =~= dec(n as int));
    s
}

} // verus!
