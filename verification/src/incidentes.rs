//! La decisión del detector de incidentes: las etiquetas que el análisis de
//! una imagen da (cada palabra de cada nombre) y si más de tres son de las
//! etiquetas de incidente conocidas.
use vstd::prelude::*;
use vstd::string::*;
use crate::texto::{vistas, palabras, palabras_exec, recorte, recortar, textos_iguales};

verus! {

/// Las etiquetas de los nombres que da el análisis: cada palabra de cada nombre, en orden.
pub open spec fn etiquetas_de(nombres: Seq<Seq<char>>) -> Seq<Seq<char>>
    decreases nombres.len(),
{
    if nombres.len() == 0 {
        Seq::empty()
    } else {
        etiquetas_de(nombres.drop_last()) + palabras(nombres.last())
    }
}

/// Las etiquetas de los nombres que da el análisis de una imagen.
pub fn etiquetas_de_nombres(nombres: &Vec<String>) -> (r: Vec<String>)
    ensures
        vistas(r@) == etiquetas_de(vistas(nombres@)),
{
    let ghost ns = vistas(nombres@);
    let mut r: Vec<String> = Vec::new();
    assert(ns.take(0) =~= Seq::<Seq<char>>::empty());
    assert(vistas(r@) =~= Seq::empty());
    for i in 0..nombres.len()
        invariant
            ns == vistas(nombres@),
            ns.len() == nombres@.len(),
            vistas(r@) == etiquetas_de(ns.take(i as int)),
    {
        assert(ns.take(i + 1).drop_last() =~= ns.take(i as int));
        assert(ns.take(i + 1).last() == nombres@[i as int]@);
        let ws = palabras_exec(nombres[i].as_str());
        let ghost r0 = vistas(r@);
        for j in 0..ws.len()
            invariant
                vistas(r@) == r0 + vistas(ws@).take(j as int),
        {
            let ghost antes = r@;
            r.push(ws[j].clone());
            assert(vistas(r@) =~= vistas(antes).push(ws@[j as int]@));
            assert(vistas(ws@).take(j + 1) =~= vistas(ws@).take(j as int).push(ws@[j as int]@));
        }
        assert(vistas(ws@).take(ws@.len() as int) =~= vistas(ws@));
    }
    assert(ns.take(ns.len() as int) =~= ns);
    r
}

/// Las etiquetas de incidente de las líneas de su archivo, recortadas.
pub fn etiquetas_de_lineas(lineas: &Vec<String>) -> (r: Vec<String>)
    ensures
        vistas(r@) == vistas(lineas@).map_values(|l: Seq<char>| recorte(l)),
{
    let ghost vs = vistas(lineas@).map_values(|l: Seq<char>| recorte(l));
    let mut r: Vec<String> = Vec::new();
    for i in 0..lineas.len()
        invariant
            vs == vistas(lineas@).map_values(|l: Seq<char>| recorte(l)),
            vs.len() == lineas@.len(),
            r@.len() == i,
            forall|k: int| 0 <= k < i ==> (#[trigger] r@[k])@ == vs[k],
    {
        r.push(recortar(lineas[i].as_str()));
    }
    assert(vistas(r@) =~= vs);
    r
}

/// Cuántas de las etiquetas (contando repeticiones) son de incidente.
pub open spec fn coincidencias(tags: Seq<Seq<char>>, incidentes: Seq<Seq<char>>) -> nat {
    tags.filter(|t: Seq<char>| incidentes.contains(t)).len()
}

/// Indica si el texto está en la lista.
fn esta_en(v: &Vec<String>, t: &str) -> (r: bool)
    ensures
        r == vistas(v@).contains(t@),
{
    let ghost vs = vistas(v@);
    for i in 0..v.len()
        invariant
            vs == vistas(v@),
            vs.len() == v@.len(),
            forall|j: int| 0 <= j < i ==> vs[j] != t@,
    {
        assert(vs[i as int] == v@[i as int]@);
        if textos_iguales(v[i].as_str(), t) {
            return true;
        }
    }
    false
}

/// Cuenta cuántas etiquetas son de incidente.
pub fn contar_coincidencias(tags: &Vec<String>, incidentes: &Vec<String>) -> (r: usize)
    ensures
        r == coincidencias(vistas(tags@), vistas(incidentes@)),
{
    let ghost ts = vistas(tags@);
    let ghost is = vistas(incidentes@);
    let mut n: usize = 0;
    assert(ts.take(0).filter(|t: Seq<char>| is.contains(t)) =~= Seq::empty()) by {
        reveal(Seq::filter);
    }
    for i in 0..tags.len()
        invariant
            ts == vistas(tags@),
            is == vistas(incidentes@),
            ts.len() == tags@.len(),
            n == coincidencias(ts.take(i as int), is),
            n <= i,
    {
        assert(ts.take(i + 1).drop_last() =~= ts.take(i as int));
        assert(ts.take(i + 1).last() == tags@[i as int]@);
        proof {
            reveal(Seq::filter);
        }
        if esta_en(incidentes, tags[i].as_str()) {
            n = n + 1;
        }
    }
    assert(ts.take(ts.len() as int) =~= ts);
    n
}

/// Una imagen es un incidente si más de tres de sus etiquetas son de incidente.
pub fn es_incidente(tags: &Vec<String>, incidentes: &Vec<String>) -> (r: bool)
    ensures
        r == (coincidencias(vistas(tags@), vistas(incidentes@)) > 3),
{
    contar_coincidencias(tags, incidentes) > 3
}

} // verus!
