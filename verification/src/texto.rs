//! Utilidades de texto sobre la vista de caracteres de `str`/`String`:
//! división por un separador, por espacios en blanco y conversión de números.
use vstd::prelude::*;
use vstd::string::*;
use vstd::utf8::encode_utf8;

verus! {

/// Vista de una secuencia de `String` como secuencia de secuencias de caracteres.
pub open spec fn vistas(v: Seq<String>) -> Seq<Seq<char>> {
    v.map_values(|x: String| x@)
}

/// Estado de la división de `s` por el carácter `d`: las partes ya cerradas
/// y la parte en curso.
pub open spec fn division_parcial(s: Seq<char>, d: char) -> (Seq<Seq<char>>, Seq<char>)
    decreases s.len(),
{
    if s.len() == 0 {
        (Seq::empty(), Seq::empty())
    } else {
        let (partes, actual) = division_parcial(s.drop_last(), d);
        if s.last() == d {
            (partes.push(actual), Seq::empty())
        } else {
            (partes, actual.push(s.last()))
        }
    }
}

/// Las partes de `s` separadas por `d`, como las da `str::split(d)`:
/// siempre al menos una parte, posiblemente vacía.
pub open spec fn dividir(s: Seq<char>, d: char) -> Seq<Seq<char>> {
    let (partes, actual) = division_parcial(s, d);
    partes.push(actual)
}

/// Los caracteres con la propiedad Unicode `White_Space`, que es lo que
/// `char::is_whitespace` reconoce.
pub open spec fn es_blanco(c: char) -> bool {
    ||| ('\u{9}' <= c && c <= '\u{d}')
    ||| c == ' '
    ||| c == '\u{85}'
    ||| c == '\u{a0}'
    ||| c == '\u{1680}'
    ||| ('\u{2000}' <= c && c <= '\u{200a}')
    ||| c == '\u{2028}'
    ||| c == '\u{2029}'
    ||| c == '\u{202f}'
    ||| c == '\u{205f}'
    ||| c == '\u{3000}'
}

/// Estado de la división de `s` en palabras: las palabras cerradas y la palabra en curso.
pub open spec fn palabras_parcial(s: Seq<char>) -> (Seq<Seq<char>>, Seq<char>)
    decreases s.len(),
{
    if s.len() == 0 {
        (Seq::empty(), Seq::empty())
    } else {
        let (ps, actual) = palabras_parcial(s.drop_last());
        if es_blanco(s.last()) {
            if actual.len() > 0 {
                (ps.push(actual), Seq::empty())
            } else {
                (ps, Seq::empty())
            }
        } else {
            (ps, actual.push(s.last()))
        }
    }
}

/// Las palabras de `s`: los tramos máximos sin blancos, como los da `str::split_whitespace`.
pub open spec fn palabras(s: Seq<char>) -> Seq<Seq<char>> {
    let (ps, actual) = palabras_parcial(s);
    if actual.len() > 0 {
        ps.push(actual)
    } else {
        ps
    }
}

/// Indica si `c` es un blanco Unicode.
pub fn es_blanco_exec(c: char) -> (r: bool)
    ensures
        r == es_blanco(c),
{
    ('\u{9}' <= c && c <= '\u{d}') || c == ' ' || c == '\u{85}' || c == '\u{a0}' || c
        == '\u{1680}' || ('\u{2000}' <= c && c <= '\u{200a}') || c == '\u{2028}' || c == '\u{2029}'
        || c == '\u{202f}' || c == '\u{205f}' || c == '\u{3000}'
}

/// Copia los caracteres de `s` a un vector.
pub fn caracteres(s: &str) -> (v: Vec<char>)
    ensures
        v@ == s@,
{
    let n = s.unicode_len();
    let mut v: Vec<char> = Vec::new();
    for i in 0..n
        invariant
            n == s@.len(),
            v@ == s@.take(i as int),
    {
        let c = s.get_char(i);
        v.push(c);
        assert(s@.take(i + 1) =~= s@.take(i as int).push(c));
    }
    assert(s@.take(n as int) =~= s@);
    v
}

/// Copia el tramo `[desde, hasta)` de caracteres de `s` a un `String` nuevo.
pub fn tramo(s: &str, desde: usize, hasta: usize) -> (r: String)
    requires
        desde <= hasta <= s@.len(),
    ensures
        r@ == s@.subrange(desde as int, hasta as int),
{
    let sub = s.substring_char(desde, hasta);
    sub.to_owned()
}

/// Divide `s` por el carácter `d`, como `str::split(d)`.
pub fn dividir_exec(s: &str, d: char) -> (r: Vec<String>)
    ensures
        vistas(r@) == dividir(s@, d),
        r@.len() >= 1,
{
    let n = s.unicode_len();
    let mut partes: Vec<String> = Vec::new();
    let mut inicio: usize = 0;
    for i in 0..n
        invariant
            n == s@.len(),
            inicio <= i,
            (vistas(partes@), s@.subrange(inicio as int, i as int)) == division_parcial(
                s@.take(i as int),
                d,
            ),
    {
        let c = s.get_char(i);
        assert(s@.take(i + 1).drop_last() =~= s@.take(i as int));
        assert(s@.take(i + 1).last() == c);
        if c == d {
            let p = tramo(s, inicio, i);
            let ghost antes = partes@;
            partes.push(p);
            assert(vistas(partes@) =~= vistas(antes).push(p@)) by {
                assert(partes@ =~= antes.push(p));
            }
            inicio = i + 1;
            assert(s@.subrange(inicio as int, i + 1) =~= Seq::<char>::empty());
        } else {
            assert(s@.subrange(inicio as int, i + 1) =~= s@.subrange(inicio as int, i as int).push(
                c,
            ));
        }
    }
    assert(s@.take(n as int) =~= s@);
    let ultima = tramo(s, inicio, n);
    let ghost antes = partes@;
    partes.push(ultima);
    assert(vistas(partes@) =~= vistas(antes).push(ultima@)) by {
        assert(partes@ =~= antes.push(ultima));
    }
    partes
}

/// Divide `s` en palabras separadas por blancos, como `str::split_whitespace`.
pub fn palabras_exec(s: &str) -> (r: Vec<String>)
    ensures
        vistas(r@) == palabras(s@),
{
    let n = s.unicode_len();
    let mut ps: Vec<String> = Vec::new();
    let mut inicio: usize = 0;
    for i in 0..n
        invariant
            n == s@.len(),
            inicio <= i,
            (vistas(ps@), s@.subrange(inicio as int, i as int)) == palabras_parcial(
                s@.take(i as int),
            ),
    {
        let c = s.get_char(i);
        assert(s@.take(i + 1).drop_last() =~= s@.take(i as int));
        assert(s@.take(i + 1).last() == c);
        if es_blanco_exec(c) {
            if inicio < i {
                let p = tramo(s, inicio, i);
                let ghost antes = ps@;
                ps.push(p);
                assert(vistas(ps@) =~= vistas(antes).push(p@)) by {
                    assert(ps@ =~= antes.push(p));
                }
            }
            inicio = i + 1;
            assert(s@.subrange(inicio as int, i + 1) =~= Seq::<char>::empty());
        } else {
            assert(s@.subrange(inicio as int, i + 1) =~= s@.subrange(inicio as int, i as int).push(
                c,
            ));
        }
    }
    assert(s@.take(n as int) =~= s@);
    if inicio < n {
        let ultima = tramo(s, inicio, n);
        let ghost antes = ps@;
        ps.push(ultima);
        assert(vistas(ps@) =~= vistas(antes).push(ultima@)) by {
            assert(ps@ =~= antes.push(ultima));
        }
    }
    ps
}

/// Indica si `s` empieza con `p`.
pub open spec fn empieza(s: Seq<char>, p: Seq<char>) -> bool {
    s.len() >= p.len() && s.take(p.len() as int) == p
}

/// Indica si `s` empieza con `p`, como `str::starts_with`.
pub fn empieza_con(s: &str, p: &str) -> (r: bool)
    ensures
        r == empieza(s@, p@),
{
    let n = s.unicode_len();
    let m = p.unicode_len();
    if n < m {
        return false;
    }
    for i in 0..m
        invariant
            n == s@.len(),
            m == p@.len(),
            m <= n,
            forall|j: int| 0 <= j < i ==> s@[j] == p@[j],
    {
        if s.get_char(i) != p.get_char(i) {
            assert(s@.take(m as int)[i as int] != p@[i as int]);
            return false;
        }
    }
    assert(s@.take(m as int) =~= p@);
    true
}

/// Cantidad de blancos al comienzo de `s`.
pub open spec fn blancos_iniciales(s: Seq<char>) -> nat
    decreases s.len(),
{
    if s.len() == 0 {
        0
    } else if es_blanco(s[0]) {
        1 + blancos_iniciales(s.drop_first())
    } else {
        0
    }
}

/// Cantidad de blancos al final de `s`.
pub open spec fn blancos_finales(s: Seq<char>) -> nat
    decreases s.len(),
{
    if s.len() == 0 {
        0
    } else if es_blanco(s.last()) {
        1 + blancos_finales(s.drop_last())
    } else {
        0
    }
}

/// `s` sin los blancos del comienzo ni del final, como `str::trim`.
pub open spec fn recorte(s: Seq<char>) -> Seq<char> {
    let a = blancos_iniciales(s);
    if a == s.len() {
        Seq::empty()
    } else {
        s.subrange(a as int, s.len() - blancos_finales(s))
    }
}

proof fn lema_blancos_iniciales(s: Seq<char>, i: int)
    requires
        0 <= i <= s.len(),
        forall|j: int| 0 <= j < i ==> es_blanco(#[trigger] s[j]),
        i < s.len() ==> !es_blanco(s[i]),
    ensures
        blancos_iniciales(s) == i,
    decreases i,
{
    if i > 0 {
        lema_blancos_iniciales(s.drop_first(), i - 1);
    }
}

proof fn lema_blancos_finales(s: Seq<char>, i: int)
    requires
        0 <= i <= s.len(),
        forall|j: int| s.len() - i <= j < s.len() ==> es_blanco(#[trigger] s[j]),
        i < s.len() ==> !es_blanco(s[s.len() - 1 - i]),
    ensures
        blancos_finales(s) == i,
    decreases i,
{
    if i > 0 {
        lema_blancos_finales(s.drop_last(), i - 1);
    }
}

/// Quita los blancos del comienzo y del final de `s`, como `str::trim`.
pub fn recortar(s: &str) -> (r: String)
    ensures
        r@ == recorte(s@),
{
    let n = s.unicode_len();
    let mut a: usize = 0;
    while a < n && es_blanco_exec(s.get_char(a))
        invariant
            n == s@.len(),
            a <= n,
            forall|j: int| 0 <= j < a ==> es_blanco(#[trigger] s@[j]),
        decreases n - a,
    {
        a = a + 1;
    }
    proof {
        lema_blancos_iniciales(s@, a as int);
    }
    if a == n {
        return String::new();
    }
    let mut b: usize = 0;
    while b < n - a && es_blanco_exec(s.get_char(n - 1 - b))
        invariant
            n == s@.len(),
            a < n,
            b <= n - a,
            forall|j: int| n - b <= j < n ==> es_blanco(#[trigger] s@[j]),
            !es_blanco(s@[a as int]),
        decreases n - a - b,
    {
        b = b + 1;
    }
    proof {
        if b == n - a {
            assert(es_blanco(s@[a as int]));
        }
        lema_blancos_finales(s@, b as int);
    }
    tramo(s, a, n - b)
}

/// El dígito decimal `d` como carácter.
pub open spec fn digito(d: nat) -> char {
    if d == 0 { '0' } else if d == 1 { '1' } else if d == 2 { '2' } else if d == 3 { '3' }
    else if d == 4 { '4' } else if d == 5 { '5' } else if d == 6 { '6' } else if d == 7 { '7' }
    else if d == 8 { '8' } else { '9' }
}

/// La escritura decimal de `n`, como la da `to_string` para enteros sin signo.
pub open spec fn decimal(n: nat) -> Seq<char>
    decreases n,
{
    if n < 10 {
        seq![digito(n)]
    } else {
        decimal(n / 10).push(digito(n % 10))
    }
}

fn digito_exec(d: usize) -> (r: &'static str)
    requires
        d < 10,
    ensures
        r@ == seq![digito(d as nat)],
{
    proof {
        reveal_strlit("0");
        reveal_strlit("1");
        reveal_strlit("2");
        reveal_strlit("3");
        reveal_strlit("4");
        reveal_strlit("5");
        reveal_strlit("6");
        reveal_strlit("7");
        reveal_strlit("8");
        reveal_strlit("9");
    }
    if d == 0 { "0" } else if d == 1 { "1" } else if d == 2 { "2" } else if d == 3 { "3" }
    else if d == 4 { "4" } else if d == 5 { "5" } else if d == 6 { "6" } else if d == 7 { "7" }
    else if d == 8 { "8" } else { "9" }
}

/// Escribe `n` en decimal.
pub fn usize_a_texto(n: usize) -> (r: String)
    ensures
        r@ == decimal(n as nat),
    decreases n,
{
    if n < 10 {
        String::from_str(digito_exec(n))
    } else {
        let mut s = usize_a_texto(n / 10);
        s.append(digito_exec(n % 10));
        s
    }
}

/// Valor de un carácter que es dígito decimal ASCII.
pub open spec fn valor_digito(c: char) -> int {
    c as int - '0' as int
}

/// Indica si `c` es un dígito decimal ASCII.
pub open spec fn es_digito(c: char) -> bool {
    '0' <= c && c <= '9'
}

/// El valor de una secuencia de dígitos decimales.
pub open spec fn valor_digitos(s: Seq<char>) -> int
    decreases s.len(),
{
    if s.len() == 0 {
        0
    } else {
        valor_digitos(s.drop_last()) * 10 + valor_digito(s.last())
    }
}

/// `s` sin un `+` inicial.
pub open spec fn sin_signo(s: Seq<char>) -> Seq<char> {
    if s.len() > 0 && s[0] == '+' {
        s.drop_first()
    } else {
        s
    }
}

/// Todos los caracteres de `d` son dígitos decimales ASCII.
pub open spec fn solo_digitos(d: Seq<char>) -> bool {
    forall|k: int| 0 <= k < d.len() ==> es_digito(#[trigger] d[k])
}

/// Lo que `str::parse::<usize>()` da: un signo `+` opcional seguido de al menos
/// un dígito, sin exceder el máximo de `usize`.
pub open spec fn parse_usize_spec(s: Seq<char>) -> Option<usize> {
    let d = sin_signo(s);
    if d.len() == 0 || !solo_digitos(d) {
        None
    } else if valor_digitos(d) > usize::MAX {
        None
    } else {
        Some(valor_digitos(d) as usize)
    }
}

proof fn lema_valor_digitos_crece(s: Seq<char>, i: int)
    requires
        0 <= i <= s.len(),
        forall|k: int| 0 <= k < s.len() ==> es_digito(#[trigger] s[k]),
    ensures
        valor_digitos(s.take(i)) <= valor_digitos(s),
        0 <= valor_digitos(s.take(i)),
    decreases s.len(),
{
    if s.len() > 0 {
        if i == s.len() {
            assert(s.take(i) =~= s);
            lema_valor_digitos_crece(s.drop_last(), s.len() - 1);
            assert(s.drop_last().take(s.len() - 1) =~= s.drop_last());
        } else {
            lema_valor_digitos_crece(s.drop_last(), i);
            assert(s.drop_last().take(i) =~= s.take(i));
            lema_valor_digitos_crece(s.drop_last(), s.len() - 1);
            assert(s.drop_last().take(s.len() - 1) =~= s.drop_last());
        }
    } else {
        assert(s.take(i) =~= s);
    }
}

/// Convierte un texto en `usize` como `str::parse::<usize>()`.
pub fn parse_usize(s: &str) -> (r: Option<usize>)
    ensures
        r == parse_usize_spec(s@),
{
    let n = s.unicode_len();
    let mut inicio: usize = 0;
    if n > 0 && s.get_char(0) == '+' {
        inicio = 1;
    }
    let ghost d = sin_signo(s@);
    assert(d =~= s@.skip(inicio as int));
    if inicio == n {
        return None;
    }
    let mut valor: usize = 0;
    let mut i: usize = inicio;
    let mut desborde = false;
    while i < n
        invariant
            n == s@.len(),
            inicio <= i <= n,
            d =~= s@.skip(inicio as int),
            d == sin_signo(s@),
            forall|k: int| inicio <= k < i ==> es_digito(#[trigger] s@[k]),
            !desborde ==> valor as int == valor_digitos(d.take(i - inicio)),
            desborde ==> valor_digitos(d.take(i - inicio)) > usize::MAX,
            desborde ==> forall|k: int| 0 <= k < i - inicio ==> es_digito(#[trigger] d[k]),
        decreases n - i,
    {
        let c = s.get_char(i);
        if c < '0' || c > '9' {
            assert(d[i - inicio] == s@[i as int]);
            assert(!es_digito(d[i - inicio]));
            return None;
        }
        let ghost t = d.take(i + 1 - inicio);
        assert(t.drop_last() =~= d.take(i - inicio));
        assert(t.last() == c);
        let dv: usize = (c as u32 - '0' as u32) as usize;
        assert(dv == valor_digito(c));
        if !desborde {
            if valor > (usize::MAX - dv) / 10 {
                desborde = true;
                assert(valor_digitos(t) > usize::MAX) by (nonlinear_arith)
                    requires
                        valor_digitos(t) == valor * 10 + dv,
                        valor > (usize::MAX - dv) / 10,
                        dv < 10,
                ;
            } else {
                assert(valor * 10 + dv <= usize::MAX) by (nonlinear_arith)
                    requires
                        valor <= (usize::MAX - dv) / 10,
                        dv < 10,
                ;
                valor = valor * 10 + dv;
            }
        } else {
            assert(valor_digitos(t) >= valor_digitos(t.drop_last()) * 10) by (nonlinear_arith)
                requires
                    valor_digitos(t) == valor_digitos(t.drop_last()) * 10 + dv,
                    dv >= 0,
            ;
            assert(valor_digitos(t.drop_last()) * 10 > usize::MAX) by (nonlinear_arith)
                requires
                    valor_digitos(t.drop_last()) > usize::MAX,
            ;
        }
        i = i + 1;
    }
    assert(d.take(n - inicio) =~= d);
    assert(forall|k: int| 0 <= k < d.len() ==> es_digito(#[trigger] d[k])) by {
        assert forall|k: int| 0 <= k < d.len() implies es_digito(#[trigger] d[k]) by {
            assert(d[k] == s@[k + inicio]);
        }
    }
    if desborde {
        None
    } else {
        Some(valor)
    }
}

/// Estado de la división de `s` por el par `cr lf`: las partes cerradas y la
/// parte en curso (que puede terminar en `cr`).
pub open spec fn division_crlf_parcial<A>(s: Seq<A>, cr: A, lf: A) -> (Seq<Seq<A>>, Seq<A>)
    decreases s.len(),
{
    if s.len() == 0 {
        (Seq::empty(), Seq::empty())
    } else {
        let (ps, act) = division_crlf_parcial(s.drop_last(), cr, lf);
        if s.last() == lf && act.len() > 0 && act.last() == cr {
            (ps.push(act.drop_last()), Seq::empty())
        } else {
            (ps, act.push(s.last()))
        }
    }
}

/// Las partes de `s` separadas por el par `cr lf`, como las da `split("\r\n")`.
pub open spec fn dividir_crlf<A>(s: Seq<A>, cr: A, lf: A) -> Seq<Seq<A>> {
    let (ps, act) = division_crlf_parcial(s, cr, lf);
    ps.push(act)
}

/// Divide `s` por `\r\n`, como `str::split("\r\n")`.
pub fn dividir_crlf_exec(s: &str) -> (r: Vec<String>)
    ensures
        vistas(r@) == dividir_crlf(s@, '\r', '\n'),
        r@.len() >= 1,
{
    let n = s.unicode_len();
    let mut partes: Vec<String> = Vec::new();
    let mut inicio: usize = 0;
    for i in 0..n
        invariant
            n == s@.len(),
            inicio <= i,
            (vistas(partes@), s@.subrange(inicio as int, i as int)) == division_crlf_parcial(
                s@.take(i as int),
                '\r',
                '\n',
            ),
    {
        let c = s.get_char(i);
        assert(s@.take(i + 1).drop_last() =~= s@.take(i as int));
        assert(s@.take(i + 1).last() == c);
        if c == '\n' && inicio < i && s.get_char(i - 1) == '\r' {
            let p = tramo(s, inicio, i - 1);
            assert(s@.subrange(inicio as int, i as int).drop_last() =~= s@.subrange(
                inicio as int,
                i - 1,
            ));
            let ghost antes = partes@;
            partes.push(p);
            assert(vistas(partes@) =~= vistas(antes).push(p@)) by {
                assert(partes@ =~= antes.push(p));
            }
            inicio = i + 1;
            assert(s@.subrange(inicio as int, i + 1) =~= Seq::<char>::empty());
        } else {
            assert(s@.subrange(inicio as int, i + 1) =~= s@.subrange(inicio as int, i as int).push(
                c,
            ));
        }
    }
    assert(s@.take(n as int) =~= s@);
    let ultima = tramo(s, inicio, n);
    let ghost antes = partes@;
    partes.push(ultima);
    assert(vistas(partes@) =~= vistas(antes).push(ultima@)) by {
        assert(partes@ =~= antes.push(ultima));
    }
    partes
}

/// Compara dos textos carácter a carácter.
pub fn textos_iguales(a: &str, b: &str) -> (r: bool)
    ensures
        r == (a@ == b@),
{
    let n = a.unicode_len();
    if n != b.unicode_len() {
        return false;
    }
    for i in 0..n
        invariant
            n == a@.len(),
            n == b@.len(),
            forall|j: int| 0 <= j < i ==> a@[j] == b@[j],
    {
        if a.get_char(i) != b.get_char(i) {
            return false;
        }
    }
    assert(a@ =~= b@);
    true
}

/// `s` sin las repeticiones de `p` al comienzo, como `str::trim_start_matches`.
pub open spec fn sin_prefijos(s: Seq<char>, p: Seq<char>) -> Seq<char>
    decreases s.len(),
{
    if p.len() > 0 && empieza(s, p) {
        sin_prefijos(s.skip(p.len() as int), p)
    } else {
        s
    }
}

/// `s` sin las repeticiones de `p` al comienzo, como `str::trim_start_matches`.
pub fn quitar_prefijos(s: &str, p: &str) -> (r: String)
    requires
        p@.len() > 0,
    ensures
        r@ == sin_prefijos(s@, p@),
{
    let mut actual = String::from_str(s);
    let m = p.unicode_len();
    while empieza_con(actual.as_str(), p)
        invariant
            m == p@.len(),
            m > 0,
            sin_prefijos(actual@, p@) == sin_prefijos(s@, p@),
        decreases actual@.len(),
    {
        let n = actual.as_str().unicode_len();
        let nuevo = tramo(actual.as_str(), m, n);
        assert(nuevo@ =~= actual@.skip(m as int));
        actual = nuevo;
    }
    actual
}

/// El largo en bytes del texto, con `str::len`. Se afirma además lo que la
/// documentación de std garantiza de todo objeto en memoria: no ocupa más de
/// `isize::MAX` bytes.
#[verifier::external_body]
pub(crate) fn largo_en_bytes(s: &str) -> (r: usize)
    ensures
        r == encode_utf8(s@).len(),
        r <= isize::MAX,
{
    s.len()
}

/// El largo de una porción de bytes, con `<[u8]>::len`. Se afirma además lo
/// que la documentación de std garantiza de toda porción: no ocupa más de
/// `isize::MAX` bytes.
#[verifier::external_body]
pub(crate) fn largo_de_bytes(b: &[u8]) -> (r: usize)
    ensures
        r == b@.len(),
        r <= isize::MAX,
{
    b.len()
}


/// Agregar caracteres sin el separador sólo alarga la parte en curso.
pub proof fn lema_division_sin_separador(p: Seq<char>, s: Seq<char>, d: char)
    requires
        !s.contains(d),
    ensures
        division_parcial(p + s, d) == (division_parcial(p, d).0, division_parcial(p, d).1 + s),
    decreases s.len(),
{
    if s.len() == 0 {
        assert(p + s =~= p);
        assert(division_parcial(p, d).1 + s =~= division_parcial(p, d).1);
    } else {
        let s0 = s.drop_last();
        assert(!s0.contains(d)) by {
            if s0.contains(d) {
                let k = choose|k: int| 0 <= k < s0.len() && s0[k] == d;
                assert(s[k] == d);
            }
        }
        assert(s[s.len() - 1] != d);
        lema_division_sin_separador(p, s0, d);
        assert((p + s).drop_last() =~= p + s0);
        assert((p + s).last() == s.last());
        assert((division_parcial(p, d).1 + s0).push(s.last()) =~= division_parcial(p, d).1 + s);
    }
}

/// Las partes de `x`, `y` y `z` unidas por el separador `d`, si ninguna lo
/// tiene, son `x`, `y` y `z`.
pub proof fn lema_dividir_tres(x: Seq<char>, y: Seq<char>, z: Seq<char>, d: char)
    requires
        !x.contains(d),
        !y.contains(d),
        !z.contains(d),
    ensures
        dividir(x + seq![d] + y + seq![d] + z, d) == seq![x, y, z],
{
    let e = Seq::<char>::empty();
    lema_division_sin_separador(e, x, d);
    assert(e + x =~= x);
    assert(division_parcial(e, d) == (Seq::<Seq<char>>::empty(), e));
    assert(e + x =~= x);
    let a = x.push(d);
    assert(a.drop_last() =~= x);
    assert(division_parcial(a, d) == (seq![x], e)) by {
        assert(Seq::<Seq<char>>::empty().push(e + x) =~= seq![x]);
    }
    lema_division_sin_separador(a, y, d);
    assert(e + y =~= y);
    let b = (a + y).push(d);
    assert(b.drop_last() =~= a + y);
    assert(division_parcial(b, d) == (seq![x, y], e)) by {
        assert(seq![x].push(y) =~= seq![x, y]);
    }
    lema_division_sin_separador(b, z, d);
    assert(b + z =~= x + seq![d] + y + seq![d] + z);
    assert(seq![x, y].push(e + z) =~= seq![x, y, z]);
}

/// La escritura decimal de `n` son dígitos que valen `n`, empieza con un dígito
/// y no tiene puntos.
pub proof fn lema_decimal(n: nat)
    ensures
        decimal(n).len() > 0,
        solo_digitos(decimal(n)),
        valor_digitos(decimal(n)) == n,
        !decimal(n).contains('.'),
    decreases n,
{
    if n < 10 {
        assert(es_digito(digito(n)));
        assert(valor_digito(digito(n)) == n);
        assert(seq![digito(n)].drop_last() =~= Seq::<char>::empty());
        assert(decimal(n)[0] == digito(n));
        assert(valor_digitos(seq![digito(n)]) == valor_digitos(Seq::<char>::empty()) * 10 + valor_digito(digito(n)));
    } else {
        lema_decimal(n / 10);
        let a = decimal(n / 10);
        let c = digito(n % 10);
        assert(es_digito(c));
        assert(valor_digito(c) == n % 10);
        assert(a.push(c).drop_last() =~= a);
        assert(a.push(c).last() == c);
        assert(valor_digitos(a.push(c)) == valor_digitos(a) * 10 + valor_digito(c));
        assert((n / 10) * 10 + n % 10 == n);
        assert forall|k: int| 0 <= k < a.push(c).len() implies es_digito(#[trigger] a.push(c)[k]) by {
            if k < a.len() {
                assert(a.push(c)[k] == a[k]);
            }
        }
        assert(!a.push(c).contains('.')) by {
            if a.push(c).contains('.') {
                let k = choose|k: int| 0 <= k < a.push(c).len() && a.push(c)[k] == '.';
                if k < a.len() {
                    assert(a[k] == '.');
                }
            }
        }
    }
}

/// Leer la escritura decimal de `n` da `n`.
pub proof fn lema_parse_decimal(n: usize)
    ensures
        parse_usize_spec(decimal(n as nat)) == Some(n),
{
    lema_decimal(n as nat);
    assert(es_digito(decimal(n as nat)[0]));
    assert(sin_signo(decimal(n as nat)) == decimal(n as nat));
}


/// Las partes de `x` y `z` unidas por el separador `d`, si ninguna lo tiene,
/// son `x` y `z`.
pub proof fn lema_dividir_dos(x: Seq<char>, z: Seq<char>, d: char)
    requires
        !x.contains(d),
        !z.contains(d),
    ensures
        dividir(x + seq![d] + z, d) == seq![x, z],
{
    let e = Seq::<char>::empty();
    lema_division_sin_separador(e, x, d);
    assert(e + x =~= x);
    let a = x.push(d);
    assert(a.drop_last() =~= x);
    assert(division_parcial(a, d) == (seq![x], e)) by {
        assert(Seq::<Seq<char>>::empty().push(e + x) =~= seq![x]);
    }
    lema_division_sin_separador(a, z, d);
    assert(a + z =~= x + seq![d] + z);
    assert(e + z =~= z);
    assert(seq![x].push(z) =~= seq![x, z]);
}

/// Una escritura decimal sólo tiene dígitos: ni espacios ni saltos de línea.
pub proof fn lema_decimal_sin_blancos(n: nat)
    ensures
        !decimal(n).contains(' '),
        !decimal(n).contains('\n'),
{
    lema_decimal(n);
    if decimal(n).contains(' ') {
        let k = choose|k: int| 0 <= k < decimal(n).len() && decimal(n)[k] == ' ';
        assert(es_digito(decimal(n)[k]));
    }
    if decimal(n).contains('\n') {
        let k = choose|k: int| 0 <= k < decimal(n).len() && decimal(n)[k] == '\n';
        assert(es_digito(decimal(n)[k]));
    }
}

/// Sin `lf`, no se cierra ninguna parte: todo queda en la parte en curso.
proof fn lema_crlf_sin_lf(x: Seq<char>)
    requires
        !x.contains('\n'),
    ensures
        division_crlf_parcial(x, '\r', '\n') == (Seq::<Seq<char>>::empty(), x),
    decreases x.len(),
{
    if x.len() > 0 {
        assert(!x.drop_last().contains('\n')) by {
            if x.drop_last().contains('\n') {
                let k = choose|k: int| 0 <= k < x.drop_last().len() && x.drop_last()[k] == '\n';
                assert(x[k] == '\n');
            }
        }
        lema_crlf_sin_lf(x.drop_last());
        assert(x[x.len() - 1] != '\n');
        assert(x.drop_last().push(x.last()) =~= x);
    }
}

/// Leer más caracteres sólo agrega partes cerradas: las ya cerradas quedan.
proof fn lema_crlf_crece(p: Seq<char>, y: Seq<char>)
    ensures
        division_crlf_parcial(p + y, '\r', '\n').0.len() >= division_crlf_parcial(p, '\r', '\n').0.len(),
        forall|k: int|
            0 <= k < division_crlf_parcial(p, '\r', '\n').0.len() ==> division_crlf_parcial(p + y, '\r', '\n').0[k]
                == #[trigger] division_crlf_parcial(p, '\r', '\n').0[k],
    decreases y.len(),
{
    if y.len() == 0 {
        assert(p + y =~= p);
    } else {
        lema_crlf_crece(p, y.drop_last());
        assert((p + y).drop_last() =~= p + y.drop_last());
    }
}

/// La primera línea de `x\r\ny`, si `x` no tiene `lf`, es `x`.
pub proof fn lema_primera_linea(x: Seq<char>, y: Seq<char>)
    requires
        !x.contains('\n'),
    ensures
        dividir_crlf(x + seq!['\r', '\n'] + y, '\r', '\n')[0] == x,
{
    lema_crlf_sin_lf(x);
    let a = x.push('\r');
    assert(a.drop_last() =~= x);
    assert(division_crlf_parcial(a, '\r', '\n') == (Seq::<Seq<char>>::empty(), a));
    let b = a.push('\n');
    assert(b.drop_last() =~= a);
    assert(a.drop_last() =~= x);
    assert(division_crlf_parcial(b, '\r', '\n') == (seq![x], Seq::<char>::empty())) by {
        assert(Seq::<Seq<char>>::empty().push(x) =~= seq![x]);
    }
    lema_crlf_crece(b, y);
    assert(b =~= x + seq!['\r', '\n']);
    assert(division_crlf_parcial(b, '\r', '\n').0[0] == x);
}


/// Leer caracteres sin `lf` sólo alarga la parte en curso.
proof fn lema_crlf_sin_lf_tras(p: Seq<char>, y: Seq<char>)
    requires
        !y.contains('\n'),
    ensures
        division_crlf_parcial(p + y, '\r', '\n') == (division_crlf_parcial(p, '\r', '\n').0, division_crlf_parcial(
            p,
            '\r',
            '\n',
        ).1 + y),
    decreases y.len(),
{
    if y.len() == 0 {
        assert(p + y =~= p);
        assert(division_crlf_parcial(p, '\r', '\n').1 + y =~= division_crlf_parcial(p, '\r', '\n').1);
    } else {
        let y0 = y.drop_last();
        assert(!y0.contains('\n')) by {
            if y0.contains('\n') {
                let k = choose|k: int| 0 <= k < y0.len() && y0[k] == '\n';
                assert(y[k] == '\n');
            }
        }
        assert(y[y.len() - 1] != '\n');
        lema_crlf_sin_lf_tras(p, y0);
        assert((p + y).drop_last() =~= p + y0);
        assert((p + y).last() == y.last());
        assert((division_crlf_parcial(p, '\r', '\n').1 + y0).push(y.last()) =~= division_crlf_parcial(p, '\r', '\n').1 + y);
    }
}

/// La segunda línea de `x\r\ny\r\nz`, si ni `x` ni `y` tienen `lf`, es `y`.
pub proof fn lema_segunda_linea(x: Seq<char>, y: Seq<char>, z: Seq<char>)
    requires
        !x.contains('\n'),
        !y.contains('\n'),
    ensures
        dividir_crlf(x + seq!['\r', '\n'] + y + seq!['\r', '\n'] + z, '\r', '\n')[1] == y,
{
    lema_crlf_sin_lf(x);
    let a = x.push('\r');
    assert(a.drop_last() =~= x);
    assert(division_crlf_parcial(a, '\r', '\n') == (Seq::<Seq<char>>::empty(), a));
    let b = a.push('\n');
    assert(b.drop_last() =~= a);
    assert(division_crlf_parcial(b, '\r', '\n') == (seq![x], Seq::<char>::empty())) by {
        assert(Seq::<Seq<char>>::empty().push(x) =~= seq![x]);
    }
    lema_crlf_sin_lf_tras(b, y);
    assert(Seq::<char>::empty() + y =~= y);
    let c = (b + y).push('\r');
    assert(c.drop_last() =~= b + y);
    let d = c.push('\n');
    assert(d.drop_last() =~= c);
    assert(division_crlf_parcial(c, '\r', '\n') == (seq![x], y.push('\r')));
    assert(y.push('\r').drop_last() =~= y);
    assert(division_crlf_parcial(d, '\r', '\n') == (seq![x, y], Seq::<char>::empty())) by {
        assert(seq![x].push(y) =~= seq![x, y]);
    }
    lema_crlf_crece(d, z);
    assert(d =~= x + seq!['\r', '\n'] + y + seq!['\r', '\n']);
    assert(d + z =~= x + seq!['\r', '\n'] + y + seq!['\r', '\n'] + z);
    assert(division_crlf_parcial(d, '\r', '\n').0[1] == y);
}

} // verus!
