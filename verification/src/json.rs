//! Lectura de campos de documentos JSON con `serde_json`.
use vstd::prelude::*;
use serde_json::Value;

verus! {

/// El texto del campo `clave` del objeto JSON `json`, según `serde_json`:
/// `None` si el documento no es JSON válido, no es un objeto, no tiene ese
/// campo o el campo no es un texto.
pub uninterp spec fn campo_texto_json(json: Seq<char>, clave: Seq<char>) -> Option<Seq<char>>;

/// Los elementos de la lista del campo `clave` del objeto JSON `json`, según
/// `serde_json`, cada uno como texto (`None` si ese elemento no es un texto);
/// `None` si el documento no es JSON válido, no es un objeto, no tiene ese
/// campo o el campo no es una lista.
pub uninterp spec fn campo_lista_json(json: Seq<char>, clave: Seq<char>) -> Option<
    Seq<Option<Seq<char>>>,
>;

/// Lee con `serde_json::from_str` el documento y toma el texto del campo
/// `clave`. Se afirma que el resultado es el nombrado `campo_texto_json`.
#[verifier::external_body]
pub(crate) fn campo_texto(json: &str, clave: &str) -> (r: Option<String>)
    ensures
        match (r, campo_texto_json(json@, clave@)) {
            (Some(t), Some(u)) => t@ == u,
            (None, None) => true,
            _ => false,
        },
{
    let v: Value = match serde_json::from_str(json) {
        Ok(v) => v,
        Err(_) => return None,
    };
    match v.get(clave) {
        Some(Value::String(s)) => Some(s.clone()),
        _ => None,
    }
}

/// Lee con `serde_json::from_str` el documento y toma la lista del campo
/// `clave`, con cada elemento como texto si lo es. Se afirma que el resultado
/// es el nombrado `campo_lista_json`.
#[verifier::external_body]
pub(crate) fn campo_lista(json: &str, clave: &str) -> (r: Option<Vec<Option<String>>>)
    ensures
        match (r, campo_lista_json(json@, clave@)) {
            (Some(v), Some(w)) => v@.len() == w.len() && forall|i: int|
                0 <= i < w.len() ==> match (#[trigger] v@[i], w[i]) {
                    (Some(t), Some(u)) => t@ == u,
                    (None, None) => true,
                    _ => false,
                },
            (None, None) => true,
            _ => false,
        },
{
    let v: Value = match serde_json::from_str(json) {
        Ok(v) => v,
        Err(_) => return None,
    };
    match v.get(clave) {
        Some(Value::Array(a)) => Some(
            a.iter().map(|x| match x {
                Value::String(s) => Some(s.clone()),
                _ => None,
            }).collect(),
        ),
        _ => None,
    }
}

} // verus!
