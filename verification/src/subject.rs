//! Reglas de subjects: coincidencia de un patrón con comodines `*` y `>`
//! contra un subject, y validación de subjects según el protocolo.
use vstd::prelude::*;
use vstd::string::*;
use crate::texto::{dividir, dividir_exec, vistas};
use crate::errores::ErroresServer;

verus! {

/// Coincidencia token a token: `>` acepta todo lo que sigue (aun nada),
/// `*` acepta exactamente un token, cualquier otro token debe ser igual.
pub open spec fn coinciden_tokens(patron: Seq<Seq<char>>, recibido: Seq<Seq<char>>) -> bool
    decreases patron.len(),
{
    if patron.len() == 0 {
        recibido.len() == 0
    } else if patron[0] == seq!['>'] {
        true
    } else if recibido.len() == 0 {
        false
    } else if patron[0] == seq!['*'] || patron[0] == recibido[0] {
        coinciden_tokens(patron.drop_first(), recibido.drop_first())
    } else {
        false
    }
}

/// El subject `subject` coincide con el patrón `token` (ambos divididos por `.`).
pub open spec fn coincide_subject(token: Seq<char>, subject: Seq<char>) -> bool {
    coinciden_tokens(dividir(token, '.'), dividir(subject, '.'))
}

/// Compara dos textos carácter a carácter.
pub fn iguales(a: &String, b: &String) -> (r: bool)
    ensures
        r == (a@ == b@),
{
    a.eq(b)
}

/// Indica si `s` es exactamente el texto de un carácter `c`.
pub fn es_caracter(s: &String, c: char) -> (r: bool)
    ensures
        r == (s@ == seq![c]),
{
    let n = s.as_str().unicode_len();
    if n != 1 {
        return false;
    }
    let d = s.as_str().get_char(0);
    if d == c {
        assert(s@ =~= seq![c]);
        true
    } else {
        false
    }
}

/// Devuelve true si el subject coincide con el patrón `token`, que puede usar
/// los comodines `*` (un token) y `>` (el resto).
pub fn subject_matches_token(token: &str, subject: &str) -> (r: bool)
    ensures
        r == coincide_subject(token@, subject@),
{
    let patron = dividir_exec(token, '.');
    let recibido = dividir_exec(subject, '.');
    let ghost p = vistas(patron@);
    let ghost q = vistas(recibido@);
    let mut i: usize = 0;
    assert(p.skip(0) =~= p);
    assert(q.skip(0) =~= q);
    while i < patron.len()
        invariant
            p == vistas(patron@),
            q == vistas(recibido@),
            p == dividir(token@, '.'),
            q == dividir(subject@, '.'),
            i <= patron.len(),
            i <= recibido.len(),
            coinciden_tokens(p, q) == coinciden_tokens(p.skip(i as int), q.skip(i as int)),
        decreases patron.len() - i,
    {
        assert(p.skip(i as int)[0] == p[i as int]);
        assert(p.skip(i as int).drop_first() =~= p.skip(i + 1));
        if es_caracter(&patron[i], '>') {
            assert(coinciden_tokens(p.skip(i as int), q.skip(i as int)));
            return true;
        }
        if i >= recibido.len() {
            assert(q.skip(i as int).len() == 0);
            assert(!coinciden_tokens(p.skip(i as int), q.skip(i as int)));
            return false;
        }
        assert(q.skip(i as int)[0] == q[i as int]);
        assert(q.skip(i as int).drop_first() =~= q.skip(i + 1));
        if es_caracter(&patron[i], '*') || iguales(&patron[i], &recibido[i]) {
            i = i + 1;
        } else {
            assert(!coinciden_tokens(p.skip(i as int), q.skip(i as int)));
            return false;
        }
    }
    assert(p.skip(i as int).len() == 0);
    i == recibido.len()
}

/// Un carácter ASCII alfanumérico.
pub open spec fn es_alfanumerico(c: char) -> bool {
    ('a' <= c && c <= 'z') || ('A' <= c && c <= 'Z') || ('0' <= c && c <= '9')
}

/// Un carácter que no puede formar un token por sí solo: ni alfanumérico ni comodín.
pub open spec fn caracter_ajeno(c: char) -> bool {
    !es_alfanumerico(c) && c != '*' && c != '>'
}

/// El error, si lo hay, que la primera fase de validación encuentra en el token
/// `t`, que está en la posición `i` de `n` tokens.
pub open spec fn error_de_token(t: Seq<char>, i: int, n: int) -> Option<Seq<char>> {
    if t.len() == 0 {
        Some("los tokens no pueden ser vacios"@)
    } else if forall|k: int| 0 <= k < t.len() ==> caracter_ajeno(#[trigger] t[k]) {
        Some("los tokens solo pueden contener caracteres alfanumericos"@)
    } else if t.contains('>') && n - 1 > i {
        Some("el wildcard '>' solo puede ser el ultimo token"@)
    } else {
        None
    }
}

/// Primera fase: el error del primer token, desde `i`, que tenga alguno.
pub open spec fn primer_error(ts: Seq<Seq<char>>, i: int) -> Option<Seq<char>>
    decreases ts.len() - i,
{
    if i < 0 || i >= ts.len() {
        None
    } else {
        match error_de_token(ts[i], i, ts.len() as int) {
            Some(m) => Some(m),
            None => primer_error(ts, i + 1),
        }
    }
}

/// Un token que usa `*` junto a otros caracteres.
pub open spec fn asterisco_acompanado(t: Seq<char>) -> bool {
    t.contains('*') && t.len() > 1
}

/// El error de validación de un subject: el de la primera fase si lo hay,
/// si no el de un `*` acompañado en algún token.
pub open spec fn error_de_subject(s: Seq<char>) -> Option<Seq<char>> {
    let ts = dividir(s, '.');
    match primer_error(ts, 0) {
        Some(m) => Some(m),
        None => if exists|k: int| 0 <= k < ts.len() && asterisco_acompanado(#[trigger] ts[k]) {
            Some("el wildcard '*' se usa solo, no puede ir acompañado, dentro del mismo token"@)
        } else {
            None
        },
    }
}

/// Indica si todos los caracteres de `t` son ajenos (ni alfanuméricos ni comodines).
fn todos_ajenos(t: &String) -> (r: bool)
    ensures
        r == (forall|k: int| 0 <= k < t@.len() ==> caracter_ajeno(#[trigger] t@[k])),
{
    let n = t.as_str().unicode_len();
    for k in 0..n
        invariant
            n == t@.len(),
            forall|j: int| 0 <= j < k ==> caracter_ajeno(#[trigger] t@[j]),
    {
        let c = t.as_str().get_char(k);
        let alfa = ('a' <= c && c <= 'z') || ('A' <= c && c <= 'Z') || ('0' <= c && c <= '9');
        if alfa || c == '*' || c == '>' {
            assert(!caracter_ajeno(t@[k as int]));
            return false;
        }
    }
    true
}

/// Indica si `t` contiene el carácter `c`.
fn contiene_caracter(t: &String, c: char) -> (r: bool)
    ensures
        r == t@.contains(c),
{
    let n = t.as_str().unicode_len();
    for k in 0..n
        invariant
            n == t@.len(),
            forall|j: int| 0 <= j < k ==> t@[j] != c,
    {
        if t.as_str().get_char(k) == c {
            return true;
        }
    }
    false
}

/// Indica si `t` tiene un `*` y además otros caracteres.
fn tiene_asterisco_acompanado(t: &String) -> (r: bool)
    ensures
        r == asterisco_acompanado(t@),
{
    let n = t.as_str().unicode_len();
    let mut hay = false;
    for k in 0..n
        invariant
            n == t@.len(),
            hay == (exists|j: int| 0 <= j < k && t@[j] == '*'),
    {
        let c = t.as_str().get_char(k);
        if c == '*' {
            hay = true;
        }
    }
    assert(hay == t@.contains('*'));
    hay && n > 1
}

/// Asegura que el subject cumple las condiciones del protocolo: tokens no
/// vacíos, con algún carácter alfanumérico o comodín, `>` sólo en el último
/// token y `*` solo.
pub fn validate_subject(subject: &str) -> (r: Result<(), ErroresServer>)
    ensures
        error_de_subject(subject@) is None ==> r is Ok,
        error_de_subject(subject@) matches Some(m) ==> (r matches Err(
            ErroresServer::InvalidSubject(t),
        ) && t@ == m),
{
    let tokens = dividir_exec(subject, '.');
    let ghost ts = vistas(tokens@);
    let n = tokens.len();
    for i in 0..n
        invariant
            n == tokens.len(),
            ts == vistas(tokens@),
            ts == dividir(subject@, '.'),
            ts.len() == n,
            primer_error(ts, 0) == primer_error(ts, i as int),
    {
        let t = &tokens[i];
        assert(ts[i as int] == t@);
        assert(primer_error(ts, i as int) == match error_de_token(ts[i as int], i as int, n as int) {
            Some(m) => Some(m),
            None => primer_error(ts, i + 1),
        });
        if t.as_str().unicode_len() == 0 {
            return Err(ErroresServer::InvalidSubject(String::from_str("los tokens no pueden ser vacios")));
        }
        if todos_ajenos(t) {
            return Err(
                ErroresServer::InvalidSubject(
                    String::from_str("los tokens solo pueden contener caracteres alfanumericos"),
                ),
            );
        }
        if contiene_caracter(t, '>') && n - 1 > i {
            return Err(
                ErroresServer::InvalidSubject(
                    String::from_str("el wildcard '>' solo puede ser el ultimo token"),
                ),
            );
        }
    }
    assert(primer_error(ts, 0) is None);
    for i in 0..n
        invariant
            n == tokens.len(),
            ts == vistas(tokens@),
            ts == dividir(subject@, '.'),
            ts.len() == n,
            primer_error(ts, 0) is None,
            forall|j: int| 0 <= j < i ==> !asterisco_acompanado(#[trigger] ts[j]),
    {
        let t = &tokens[i];
        assert(ts[i as int] == t@);
        if tiene_asterisco_acompanado(t) {
            return Err(
                ErroresServer::InvalidSubject(
                    String::from_str(
                        "el wildcard '*' se usa solo, no puede ir acompañado, dentro del mismo token",
                    ),
                ),
            );
        }
    }
    Ok(())
}

/// Todo subject coincide consigo mismo como patrón.
pub proof fn ley_subject_coincide_consigo(s: Seq<char>)
    ensures
        coincide_subject(s, s),
{
    lema_tokens_coinciden_consigo(dividir(s, '.'));
}

/// Una lista de tokens coincide consigo misma.
proof fn lema_tokens_coinciden_consigo(ts: Seq<Seq<char>>)
    ensures
        coinciden_tokens(ts, ts),
    decreases ts.len(),
{
    if ts.len() > 0 {
        lema_tokens_coinciden_consigo(ts.drop_first());
    }
}

/// El patrón `>` acepta cualquier subject.
pub proof fn ley_mayor_acepta_todo(s: Seq<char>)
    ensures
        coincide_subject(seq!['>'], s),
{
    assert(dividir(seq!['>'], '.') =~= seq![seq!['>']]) by {
        reveal_with_fuel(crate::texto::division_parcial, 2);
        assert(seq!['>'].drop_last() =~= Seq::<char>::empty());
    }
}

/// Un patrón sin comodines sólo acepta los subjects con exactamente los mismos tokens.
pub proof fn ley_sin_comodines_es_igualdad(p: Seq<Seq<char>>, r: Seq<Seq<char>>)
    requires
        forall|i: int| 0 <= i < p.len() ==> (#[trigger] p[i]) != seq!['>'] && p[i] != seq!['*'],
    ensures
        coinciden_tokens(p, r) <==> p == r,
    decreases p.len(),
{
    if p.len() > 0 && r.len() > 0 {
        ley_sin_comodines_es_igualdad(p.drop_first(), r.drop_first());
        if p[0] == r[0] && p.drop_first() == r.drop_first() {
            assert(p =~= seq![p[0]] + p.drop_first());
            assert(r =~= seq![r[0]] + r.drop_first());
        }
        if p == r {
            assert(p.drop_first() =~= r.drop_first());
        }
    } else if p.len() == 0 && r.len() > 0 {
        assert(p != r);
    } else if p.len() > 0 && r.len() == 0 {
        assert(p != r);
    } else {
        assert(p =~= r);
    }
}

} // verus!
