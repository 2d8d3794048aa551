//! Recuperación de los JetStreams guardados: consumidores, relación de cada
//! stream con sus consumidores y mensajes, a partir de las líneas de los
//! archivos CSV.
use vstd::prelude::*;
use vstd::string::*;
use crate::texto::{vistas, dividir, dividir_exec, recorte, recortar, textos_iguales};
use crate::acciones::{Accion, AccionV, vistas_acciones, agregar};
use crate::jetstream::{
    JetStream, JetStreamV, PushConsumer, ConsumidorV, vistas_consumidores, vistas_mensajes,
    datos_consumidor, datos_jetstream, linea_consumidor, acciones_reenvio, parse_consumers_data,
    parse_js_data, RESOURCES_PATH, JETSTREAM_DATA_PATH, CONSUMERS_PATH, JETSTREAM_CONSUMERS_PATH,
};

verus! {

/// Los consumidores de las líneas de su archivo que se pueden leer, en orden.
pub open spec fn consumidores_de_lineas(ls: Seq<Seq<char>>) -> Seq<ConsumidorV>
    decreases ls.len(),
{
    if ls.len() == 0 {
        Seq::empty()
    } else {
        let previos = consumidores_de_lineas(ls.drop_last());
        match datos_consumidor(ls.last()) {
            Some(c) => previos.push(c),
            None => previos,
        }
    }
}

/// Los que están entre los nombres dados.
pub open spec fn nombrados(cs: Seq<ConsumidorV>, nombres: Seq<Seq<char>>) -> Seq<ConsumidorV> {
    cs.filter(|c: ConsumidorV| nombres.contains(c.name))
}

/// Los que no están entre los nombres dados.
pub open spec fn no_nombrados(cs: Seq<ConsumidorV>, nombres: Seq<Seq<char>>) -> Seq<ConsumidorV> {
    cs.filter(|c: ConsumidorV| !nombres.contains(c.name))
}

/// El nombre del stream de una línea de relación (su primera columna, recortada).
pub open spec fn stream_de_relacion(l: Seq<char>) -> Seq<char> {
    recorte(dividir(l, ',')[0])
}

/// Los nombres de consumidores de una línea de relación (las demás columnas, recortadas).
pub open spec fn nombres_de_relacion(l: Seq<char>) -> Seq<Seq<char>> {
    dividir(l, ',').skip(1).map_values(|p: Seq<char>| recorte(p))
}

/// La primera entrada con esa clave.
pub open spec fn posicion_clave<V>(m: Seq<(Seq<char>, V)>, k: Seq<char>) -> Option<int> {
    if exists|i: int| 0 <= i < m.len() && m[i].0 == k {
        Some(choose|i: int| 0 <= i < m.len() && m[i].0 == k && forall|j: int| 0 <= j < i ==> m[j].0 != k)
    } else {
        None
    }
}

/// Asocia `v` a la clave `k`: reemplaza la entrada que la tiene o agrega una al final.
pub open spec fn insertar<V>(m: Seq<(Seq<char>, V)>, k: Seq<char>, v: V) -> Seq<(Seq<char>, V)> {
    match posicion_clave(m, k) {
        Some(i) => m.update(i, (k, v)),
        None => m.push((k, v)),
    }
}

/// Reparte los consumidores entre los streams según las líneas de relación,
/// en orden: cada línea se lleva, de los que quedan, los que nombra, y
/// reemplaza lo asociado antes a su stream. Da la asociación y los que sobran.
pub open spec fn repartir(cs: Seq<ConsumidorV>, rels: Seq<Seq<char>>) -> (
    Seq<(Seq<char>, Seq<ConsumidorV>)>,
    Seq<ConsumidorV>,
)
    decreases rels.len(),
{
    if rels.len() == 0 {
        (Seq::empty(), cs)
    } else {
        let (m, quedan) = repartir(cs, rels.drop_last());
        let l = rels.last();
        let ns = nombres_de_relacion(l);
        (insertar(m, stream_de_relacion(l), nombrados(quedan, ns)), no_nombrados(quedan, ns))
    }
}

/// El id siguiente al mayor de los mensajes, o 0 si no hay mensajes.
pub open spec fn siguiente_de(ms: Seq<(Seq<char>, usize)>) -> int
    decreases ms.len(),
{
    if ms.len() == 0 {
        0
    } else {
        let a = siguiente_de(ms.drop_last());
        let b = ms.last().1 + 1;
        if b > a {
            b
        } else {
            a
        }
    }
}

/// Los streams que se recuperan de las líneas de datos, en orden: cada línea
/// legible cuyo stream tiene consumidores asociados (aún no usados) da un
/// stream con su subject, sus mensajes y esos consumidores. Da también la
/// asociación que queda.
pub open spec fn streams_de_datos(
    m: Seq<(Seq<char>, Seq<ConsumidorV>)>,
    datos: Seq<Seq<char>>,
    rutas: (Seq<char>, Seq<char>, Seq<char>, Seq<char>),
) -> (Seq<JetStreamV>, Seq<(Seq<char>, Seq<ConsumidorV>)>)
    decreases datos.len(),
{
    if datos.len() == 0 {
        (Seq::empty(), m)
    } else {
        let (ss, m1) = streams_de_datos(m, datos.drop_last(), rutas);
        match stream_de_linea(m1, datos.last(), rutas) {
            Some((js, i)) => (ss.push(js), m1.remove(i)),
            None => (ss, m1),
        }
    }
}

/// El stream que da una línea de datos legible cuyo stream tiene consumidores
/// en la asociación, con la posición de esa entrada.
pub open spec fn stream_de_linea(
    m: Seq<(Seq<char>, Seq<ConsumidorV>)>,
    l: Seq<char>,
    rutas: (Seq<char>, Seq<char>, Seq<char>, Seq<char>),
) -> Option<(JetStreamV, int)> {
    match datos_jetstream(l) {
        Some((n, s, ms)) => match posicion_clave(m, n) {
            Some(i) => Some(
                (
                    JetStreamV {
                        subjects: seq![s],
                        messages: ms,
                        name: n,
                        consumers: m[i].1,
                        id_counter: siguiente_de(ms) as usize,
                        resources_path: rutas.0,
                        data_path: rutas.1,
                        consumers_path: rutas.2,
                        jet_stream_consumers_path: rutas.3,
                    },
                    i,
                ),
            ),
            None => None,
        },
        None => None,
    }
}

/// Las acciones de poner en marcha los streams recuperados: lanzar sus
/// consumidores y reenviarles los mensajes guardados.
pub open spec fn acciones_de_streams(ss: Seq<JetStreamV>) -> Seq<AccionV>
    decreases ss.len(),
{
    if ss.len() == 0 {
        Seq::empty()
    } else {
        acciones_de_streams(ss.drop_last()) + acciones_de_stream(ss.last())
    }
}

/// Las acciones de poner en marcha un stream recuperado: lanzar cada
/// consumidor y reenviarle los mensajes guardados.
pub open spec fn acciones_de_stream(js: JetStreamV) -> Seq<AccionV> {
    lanzamientos(js.name, js.consumers) + acciones_reenvio(js.name, js.messages, js.consumers)
}

/// Guardar de nuevo el estado de cada consumidor leído.
pub open spec fn guardados(cs: Seq<ConsumidorV>, archivo: Seq<char>) -> Seq<AccionV> {
    cs.map_values(
        |c: ConsumidorV| AccionV::GuardarCsv { archivo, clave: c.name, linea: linea_consumidor(c) },
    )
}

/// Los mensajes guardados en una línea de datos (ninguno si no es legible).
pub open spec fn mensajes_de_linea(l: Seq<char>) -> Seq<(Seq<char>, usize)> {
    match datos_jetstream(l) {
        Some((_, _, ms)) => ms,
        None => Seq::empty(),
    }
}

/// Los ids de los mensajes de las líneas de datos admiten un siguiente.
pub open spec fn ids_acotados(datos: Seq<Seq<char>>) -> bool {
    forall|i: int, j: int|
        0 <= i < datos.len() && 0 <= j < mensajes_de_linea(datos[i]).len() ==> (
        #[trigger] mensajes_de_linea(datos[i])[j]).1 < usize::MAX
}

/// Indica si el texto está en la lista.
fn contiene_texto(v: &Vec<String>, t: &str) -> (r: bool)
    ensures
        r == vistas(v@).contains(t@),
{
    let ghost vs = vistas(v@);
    for i in 0..v.len()
        invariant
            vs == vistas(v@),
            vs.len() == v@.len(),
            forall|j: int| 0 <= j < i ==> vs[j] != t@,
    {
        assert(vs[i as int] == v@[i as int]@);
        if textos_iguales(v[i].as_str(), t) {
            assert(vs[i as int] == t@);
            return true;
        }
    }
    false
}

/// Separa los consumidores en dos grupos, en orden: los que están entre los
/// nombres dados y los que no.
pub fn separate_consumers(all_consumers: Vec<PushConsumer>, consumer_names: Vec<String>) -> (r: (
    Vec<PushConsumer>,
    Vec<PushConsumer>,
))
    ensures
        vistas_consumidores(r.0@) == nombrados(
            vistas_consumidores(all_consumers@),
            vistas(consumer_names@),
        ),
        vistas_consumidores(r.1@) == no_nombrados(
            vistas_consumidores(all_consumers@),
            vistas(consumer_names@),
        ),
{
    let ghost vs = vistas_consumidores(all_consumers@);
    let ghost ns = vistas(consumer_names@);
    let mut viejos = all_consumers;
    let mut si: Vec<PushConsumer> = Vec::new();
    let mut no: Vec<PushConsumer> = Vec::new();
    let n = viejos.len();
    let mut i: usize = 0;
    assert(vs.skip(0) =~= vs);
    assert(nombrados(vs.take(0), ns) =~= Seq::empty() && no_nombrados(vs.take(0), ns) =~= Seq::empty()) by {
        reveal(Seq::filter);
    }
    assert(vistas_consumidores(si@) =~= Seq::empty());
    assert(vistas_consumidores(no@) =~= Seq::empty());
    while viejos.len() > 0
        invariant
            n == vs.len(),
            ns == vistas(consumer_names@),
            i + viejos@.len() == n,
            vistas_consumidores(viejos@) == vs.skip(i as int),
            vistas_consumidores(si@) == nombrados(vs.take(i as int), ns),
            vistas_consumidores(no@) == no_nombrados(vs.take(i as int), ns),
        decreases viejos@.len(),
    {
        let ghost w0 = viejos@;
        let c = viejos.remove(0);
        assert(viejos@ =~= w0.remove(0));
        assert(vistas_consumidores(w0)[0] == c@);
        assert(vs.skip(i as int)[0] == vs[i as int]);
        assert(vs.take(i + 1).drop_last() =~= vs.take(i as int));
        assert(vs.take(i + 1).last() == c@);
        assert(vistas_consumidores(viejos@) =~= vistas_consumidores(w0).drop_first());
        assert(vs.skip(i as int).drop_first() =~= vs.skip(i + 1));
        proof {
            reveal(Seq::filter);
        }
        if contiene_texto(&consumer_names, c.nombre().as_str()) {
            let ghost s0 = si@;
            si.push(c);
            assert(vistas_consumidores(si@) =~= vistas_consumidores(s0).push(si@[s0.len() as int]@));
        } else {
            let ghost n0 = no@;
            no.push(c);
            assert(vistas_consumidores(no@) =~= vistas_consumidores(n0).push(no@[n0.len() as int]@));
        }
        i = i + 1;
    }
    assert(vs.take(n as int) =~= vs);
    (si, no)
}

/// Lee los consumidores de las líneas de su archivo y pide guardar de nuevo su estado.
fn load_consumers(lineas: &Vec<String>, archivo: &str, acciones: &mut Vec<Accion>) -> (r: Vec<
    PushConsumer,
>)
    ensures
        vistas_consumidores(r@) == consumidores_de_lineas(vistas(lineas@)),
        vistas_acciones(final(acciones)@) == vistas_acciones(old(acciones)@) + guardados(
            consumidores_de_lineas(vistas(lineas@)),
            archivo@,
        ),
{
    let ghost ls = vistas(lineas@);
    let ghost a0 = vistas_acciones(acciones@);
    let mut cs: Vec<PushConsumer> = Vec::new();
    assert(vistas_consumidores(cs@) =~= Seq::empty());
    assert(ls.take(0) =~= Seq::<Seq<char>>::empty());
    for i in 0..lineas.len()
        invariant
            ls == vistas(lineas@),
            ls.len() == lineas@.len(),
            vistas_consumidores(cs@) == consumidores_de_lineas(ls.take(i as int)),
            vistas_acciones(acciones@) == a0 + guardados(consumidores_de_lineas(ls.take(i as int)), archivo@),
    {
        assert(ls.take(i + 1).drop_last() =~= ls.take(i as int));
        assert(ls.take(i + 1).last() == lineas@[i as int]@);
        let ghost prev = consumidores_de_lineas(ls.take(i as int));
        match parse_consumers_data(lineas[i].as_str()) {
            Ok((n, d, u)) => {
                let c = PushConsumer::new(d.as_str(), n.as_str(), u);
                agregar(
                    acciones,
                    Accion::GuardarCsv { archivo: String::from_str(archivo), clave: n, linea: c.to_csv() },
                );
                let ghost c0 = cs@;
                cs.push(c);
                assert(vistas_consumidores(cs@) =~= vistas_consumidores(c0).push(cs@[c0.len() as int]@));
                assert(guardados(prev.push(c@), archivo@) =~= guardados(prev, archivo@).push(
                    AccionV::GuardarCsv { archivo: archivo@, clave: c@.name, linea: linea_consumidor(c@) },
                ));
            },
            Err(_) => {},
        }
    }
    assert(ls.take(ls.len() as int) =~= ls);
    cs
}

/// Vista de la asociación de streams con sus consumidores.
pub open spec fn vista_reparto(m: Seq<(String, Vec<PushConsumer>)>) -> Seq<(Seq<char>, Seq<ConsumidorV>)> {
    m.map_values(|p: (String, Vec<PushConsumer>)| (p.0@, vistas_consumidores(p.1@)))
}

/// Vista de una lista de streams.
pub open spec fn vistas_streams(v: Seq<JetStream>) -> Seq<JetStreamV> {
    v.map_values(|j: JetStream| j@)
}

/// La posición de la primera entrada con esa clave.
fn buscar_clave(m: &Vec<(String, Vec<PushConsumer>)>, k: &str) -> (r: Option<usize>)
    ensures
        match (r, posicion_clave(vista_reparto(m@), k@)) {
            (Some(i), Some(j)) => i == j,
            (None, None) => true,
            _ => false,
        },
        r matches Some(i) ==> i < m@.len(),
{
    let ghost vm = vista_reparto(m@);
    for i in 0..m.len()
        invariant
            vm == vista_reparto(m@),
            vm.len() == m@.len(),
            forall|j: int| 0 <= j < i ==> (#[trigger] vm[j]).0 != k@,
    {
        assert(vm[i as int].0 == m@[i as int].0@);
        if textos_iguales(m[i].0.as_str(), k) {
            let ghost p = posicion_clave(vm, k@);
            assert(p is Some);
            let ghost q = p->0;
            assert(q == i) by {
                if q < i {
                    assert(vm[q].0 != k@);
                } else if q > i {
                    assert(vm[i as int].0 != k@);
                }
            }
            return Some(i);
        }
    }
    None
}

/// Asocia los consumidores `v` al stream `k`.
fn insertar_en(m: &mut Vec<(String, Vec<PushConsumer>)>, k: String, v: Vec<PushConsumer>)
    ensures
        vista_reparto(final(m)@) == insertar(vista_reparto(old(m)@), k@, vistas_consumidores(v@)),
{
    let ghost vm = vista_reparto(m@);
    let ghost par = (k@, vistas_consumidores(v@));
    match buscar_clave(m, k.as_str()) {
        Some(i) => {
            let ghost antes = m@;
            let _ = m.remove(i);
            m.insert(i, (k, v));
            assert(m@ =~= antes.update(i as int, m@[i as int]));
            assert(vista_reparto(m@) =~= vm.update(i as int, par));
        },
        None => {
            let ghost antes = m@;
            m.push((k, v));
            assert(vista_reparto(m@) =~= vm.push(par));
        },
    }
}

/// Los nombres de consumidores de una línea de relación, recortados.
fn nombres_de(ps: &Vec<String>) -> (r: Vec<String>)
    requires
        ps@.len() >= 1,
    ensures
        vistas(r@) == vistas(ps@).skip(1).map_values(|p: Seq<char>| recorte(p)),
{
    let ghost vs = vistas(ps@).skip(1).map_values(|p: Seq<char>| recorte(p));
    let mut r: Vec<String> = Vec::new();
    for j in 1..ps.len()
        invariant
            ps@.len() >= 1,
            vs == vistas(ps@).skip(1).map_values(|p: Seq<char>| recorte(p)),
            r@.len() == j - 1,
            forall|k: int| 0 <= k < j - 1 ==> (#[trigger] r@[k])@ == vs[k],
    {
        assert(vs[j - 1] == recorte(ps@[j as int]@));
        r.push(recortar(ps[j].as_str()));
    }
    assert(vistas(r@) =~= vs);
    r
}

/// Reparte los consumidores entre los streams según las líneas de relación.
fn repartir_consumidores(cs: Vec<PushConsumer>, rels: &Vec<String>) -> (r: (
    Vec<(String, Vec<PushConsumer>)>,
    Vec<PushConsumer>,
))
    ensures
        (vista_reparto(r.0@), vistas_consumidores(r.1@)) == repartir(
            vistas_consumidores(cs@),
            vistas(rels@),
        ),
{
    let ghost c0 = vistas_consumidores(cs@);
    let ghost ls = vistas(rels@);
    let mut m: Vec<(String, Vec<PushConsumer>)> = Vec::new();
    let mut quedan = cs;
    assert(ls.take(0) =~= Seq::<Seq<char>>::empty());
    assert(vista_reparto(m@) =~= Seq::empty());
    for i in 0..rels.len()
        invariant
            ls == vistas(rels@),
            ls.len() == rels@.len(),
            (vista_reparto(m@), vistas_consumidores(quedan@)) == repartir(c0, ls.take(i as int)),
    {
        assert(ls.take(i + 1).drop_last() =~= ls.take(i as int));
        assert(ls.take(i + 1).last() == rels@[i as int]@);
        let ps = dividir_exec(rels[i].as_str(), ',');
        assert(vistas(ps@)[0] == ps@[0]@);
        let nombre = recortar(ps[0].as_str());
        let nombres = nombres_de(&ps);
        let (si, no) = separate_consumers(quedan, nombres);
        insertar_en(&mut m, nombre, si);
        quedan = no;
    }
    assert(ls.take(ls.len() as int) =~= ls);
    (m, quedan)
}

/// El id siguiente al mayor de los mensajes, o 0 si no hay mensajes.
fn siguiente_id(ms: &Vec<(String, usize)>) -> (r: usize)
    requires
        forall|j: int| 0 <= j < ms@.len() ==> (#[trigger] ms@[j]).1 < usize::MAX,
    ensures
        r == siguiente_de(vistas_mensajes(ms@)),
{
    let ghost vm = vistas_mensajes(ms@);
    let mut r: usize = 0;
    assert(vm.take(0) =~= Seq::<(Seq<char>, usize)>::empty());
    for i in 0..ms.len()
        invariant
            vm == vistas_mensajes(ms@),
            vm.len() == ms@.len(),
            forall|j: int| 0 <= j < ms@.len() ==> (#[trigger] ms@[j]).1 < usize::MAX,
            r == siguiente_de(vm.take(i as int)),
    {
        assert(vm.take(i + 1).drop_last() =~= vm.take(i as int));
        assert(vm.take(i + 1).last() == vm[i as int]);
        assert(vm[i as int].1 == ms@[i as int].1);
        let b = ms[i].1 + 1;
        if b > r {
            r = b;
        }
    }
    assert(vm.take(vm.len() as int) =~= vm);
    r
}

/// Lanzar cada consumidor del stream `stream`, desde su último mensaje confirmado.
pub open spec fn lanzamientos(stream: Seq<char>, cs: Seq<ConsumidorV>) -> Seq<AccionV> {
    cs.map_values(
        |c: ConsumidorV|
            AccionV::CrearConsumidor {
                stream,
                nombre: c.name,
                delivery_subject: c.delivery_subject,
                last_ack: c.last_acknoledged,
            },
    )
}

/// Pide lanzar cada consumidor del stream.
fn lanzar_consumidores(stream: &String, cs: &Vec<PushConsumer>, acciones: &mut Vec<Accion>)
    ensures
        vistas_acciones(final(acciones)@) == vistas_acciones(old(acciones)@) + lanzamientos(
            stream@,
            vistas_consumidores(cs@),
        ),
{
    let ghost a0 = vistas_acciones(acciones@);
    let ghost vc = vistas_consumidores(cs@);
    assert(lanzamientos(stream@, vc.take(0)) =~= Seq::empty());
    for i in 0..cs.len()
        invariant
            vc == vistas_consumidores(cs@),
            vc.len() == cs@.len(),
            vistas_acciones(acciones@) == a0 + lanzamientos(stream@, vc.take(i as int)),
    {
        let ghost a1 = vistas_acciones(acciones@);
        agregar(
            acciones,
            Accion::CrearConsumidor {
                stream: stream.clone(),
                nombre: cs[i].nombre().clone(),
                delivery_subject: cs[i].subject_de_entrega().clone(),
                last_ack: cs[i].ultimo_confirmado(),
            },
        );
        assert(vc[i as int] == cs@[i as int]@);
        let ghost c = vc[i as int];
        assert(lanzamientos(stream@, vc.take(i + 1)) =~= lanzamientos(stream@, vc.take(i as int)).push(
            AccionV::CrearConsumidor {
                stream: stream@,
                nombre: c.name,
                delivery_subject: c.delivery_subject,
                last_ack: c.last_acknoledged,
            },
        ));
        assert(vistas_acciones(acciones@) =~= a0 + lanzamientos(stream@, vc.take(i + 1)));
    }
    assert(vc.take(vc.len() as int) =~= vc);
}

/// Procesa una línea de datos: si da un stream, lo agrega, lo quita de la
/// asociación y pide ponerlo en marcha.
#[verifier::rlimit(40)]
#[verifier::spinoff_prover]
fn procesar_linea(
    m: &mut Vec<(String, Vec<PushConsumer>)>,
    linea: &String,
    resources_path: &str,
    data_path: &str,
    consumers_path: &str,
    jet_stream_consumers_path: &str,
    r: &mut Vec<JetStream>,
    acciones: &mut Vec<Accion>,
)
    requires
        forall|j: int|
            0 <= j < mensajes_de_linea(linea@).len() ==> (#[trigger] mensajes_de_linea(linea@)[j]).1
                < usize::MAX,
    ensures
        match stream_de_linea(
            vista_reparto(old(m)@),
            linea@,
            (resources_path@, data_path@, consumers_path@, jet_stream_consumers_path@),
        ) {
            Some((js, i)) => {
                &&& vista_reparto(final(m)@) == vista_reparto(old(m)@).remove(i)
                &&& vistas_streams(final(r)@) == vistas_streams(old(r)@).push(js)
                &&& vistas_acciones(final(acciones)@) == vistas_acciones(old(acciones)@)
                    + acciones_de_stream(js)
            },
            None => {
                &&& vista_reparto(final(m)@) == vista_reparto(old(m)@)
                &&& vistas_streams(final(r)@) == vistas_streams(old(r)@)
                &&& vistas_acciones(final(acciones)@) == vistas_acciones(old(acciones)@)
            },
        },
{
    match parse_js_data(linea.as_str()) {
        Ok((n, sub, ms)) => {
            assert(vistas_mensajes(ms@) == mensajes_de_linea(linea@));
            assert forall|j: int| 0 <= j < ms@.len() implies (#[trigger] ms@[j]).1 < usize::MAX by {
                assert(vistas_mensajes(ms@)[j].1 == ms@[j].1);
                assert(mensajes_de_linea(linea@)[j].1 < usize::MAX);
            }
            let sig = siguiente_id(&ms);
            match buscar_clave(m, n.as_str()) {
                Some(k) => {
                    let ghost vm = vista_reparto(m@);
                    let ghost antes = m@;
                    let ghost a0 = vistas_acciones(acciones@);
                    let (_, consumidores) = m.remove(k);
                    assert(m@ =~= antes.remove(k as int));
                    assert(vista_reparto(m@) =~= vm.remove(k as int));
                    assert(vistas_consumidores(consumidores@) == vm[k as int].1);
                    lanzar_consumidores(&n, &consumidores, acciones);
                    let js = JetStream::restaurado(
                        sub,
                        n,
                        ms,
                        consumidores,
                        sig,
                        resources_path,
                        data_path,
                        consumers_path,
                        jet_stream_consumers_path,
                    );
                    js.send_data_to_consumers(acciones);
                    let ghost r0 = r@;
                    r.push(js);
                    assert(vistas_streams(r@) =~= vistas_streams(r0).push(js@));
                    assert(vistas_acciones(acciones@) =~= a0 + acciones_de_stream(js@));
                },
                None => {},
            }
        },
        Err(_) => {},
    }
}

/// Recupera los streams de las líneas de datos y pide ponerlos en marcha.
fn streams_de_lineas(
    m: Vec<(String, Vec<PushConsumer>)>,
    datos: &Vec<String>,
    resources_path: &str,
    data_path: &str,
    consumers_path: &str,
    jet_stream_consumers_path: &str,
    acciones: &mut Vec<Accion>,
) -> (r: Vec<JetStream>)
    requires
        ids_acotados(vistas(datos@)),
    ensures
        ({
            let ss = streams_de_datos(
                vista_reparto(m@),
                vistas(datos@),
                (resources_path@, data_path@, consumers_path@, jet_stream_consumers_path@),
            ).0;
            &&& vistas_streams(r@) == ss
            &&& vistas_acciones(final(acciones)@) == vistas_acciones(old(acciones)@)
                + acciones_de_streams(ss)
        }),
{
    let ghost rutas = (resources_path@, data_path@, consumers_path@, jet_stream_consumers_path@);
    let ghost m0 = vista_reparto(m@);
    let ghost ls = vistas(datos@);
    let ghost a0 = vistas_acciones(acciones@);
    let mut m = m;
    let mut r: Vec<JetStream> = Vec::new();
    assert(ls.take(0) =~= Seq::<Seq<char>>::empty());
    assert(vistas_streams(r@) =~= Seq::empty());
    for i in 0..datos.len()
        invariant
            ls == vistas(datos@),
            ls.len() == datos@.len(),
            ids_acotados(ls),
            rutas == (resources_path@, data_path@, consumers_path@, jet_stream_consumers_path@),
            (vistas_streams(r@), vista_reparto(m@)) == streams_de_datos(m0, ls.take(i as int), rutas),
            vistas_acciones(acciones@) == a0 + acciones_de_streams(
                streams_de_datos(m0, ls.take(i as int), rutas).0,
            ),
    {
        assert(ls.take(i + 1).drop_last() =~= ls.take(i as int));
        assert(ls.take(i + 1).last() == datos@[i as int]@);
        assert(ls[i as int] == datos@[i as int]@);
        assert forall|j: int| 0 <= j < mensajes_de_linea(datos@[i as int]@).len() implies (
        #[trigger] mensajes_de_linea(datos@[i as int]@)[j]).1 < usize::MAX by {
            assert(mensajes_de_linea(ls[i as int])[j].1 < usize::MAX);
        }
        let ghost a1 = vistas_acciones(acciones@);
        let ghost ss0 = vistas_streams(r@);
        let ghost mm = vista_reparto(m@);
        procesar_linea(
            &mut m,
            &datos[i],
            resources_path,
            data_path,
            consumers_path,
            jet_stream_consumers_path,
            &mut r,
            acciones,
        );
        proof {
            match stream_de_linea(mm, ls[i as int], rutas) {
                Some((js, k)) => {
                    assert(vistas_acciones(acciones@) =~= a0 + acciones_de_streams(ss0.push(js))) by {
                        assert(ss0.push(js).drop_last() =~= ss0);
                    }
                },
                None => {},
            }
        }
    }
    assert(ls.take(ls.len() as int) =~= ls);
    r
}

/// Los streams recuperados tienen un único subject.
proof fn lema_un_subject(
    m: Seq<(Seq<char>, Seq<ConsumidorV>)>,
    datos: Seq<Seq<char>>,
    rutas: (Seq<char>, Seq<char>, Seq<char>, Seq<char>),
)
    ensures
        forall|i: int|
            0 <= i < streams_de_datos(m, datos, rutas).0.len() ==> (#[trigger] streams_de_datos(
                m,
                datos,
                rutas,
            ).0[i]).subjects.len() == 1,
    decreases datos.len(),
{
    if datos.len() > 0 {
        lema_un_subject(m, datos.drop_last(), rutas);
    }
    assert forall|i: int|
        0 <= i < streams_de_datos(m, datos, rutas).0.len() implies (#[trigger] streams_de_datos(
            m,
            datos,
            rutas,
        ).0[i]).subjects.len() == 1 by {
        if datos.len() > 0 {
            let (ss, m1) = streams_de_datos(m, datos.drop_last(), rutas);
            if i < ss.len() {
                assert(streams_de_datos(m, datos, rutas).0[i] == ss[i]);
            }
        }
    }
}

/// Los streams que se recuperan de las líneas de los tres archivos: los
/// consumidores legibles se reparten según las relaciones, y cada línea de
/// datos legible cuyo stream tiene consumidores da un stream.
pub open spec fn streams_recuperados(
    consumidores: Seq<Seq<char>>,
    relaciones: Seq<Seq<char>>,
    datos: Seq<Seq<char>>,
    rutas: (Seq<char>, Seq<char>, Seq<char>, Seq<char>),
) -> Seq<JetStreamV> {
    streams_de_datos(repartir(consumidores_de_lineas(consumidores), relaciones).0, datos, rutas).0
}

/// Recupera los JetStreams de las líneas de los archivos de consumidores, de
/// relación y de datos (una lista vacía si un archivo no se pudo leer), que
/// están en los archivos dados. Pide guardar de nuevo el estado de cada
/// consumidor leído, lanzar los consumidores de cada stream y reenviarles sus mensajes.
pub fn _load_file_storage(
    consumidores: &Vec<String>,
    relaciones: &Vec<String>,
    datos: &Vec<String>,
    resources_path: &str,
    data_path: &str,
    consumers_path: &str,
    jet_stream_consumers_path: &str,
    acciones: &mut Vec<Accion>,
) -> (r: Vec<JetStream>)
    requires
        ids_acotados(vistas(datos@)),
    ensures
        ({
            let rutas = (resources_path@, data_path@, consumers_path@, jet_stream_consumers_path@);
            let ss = streams_recuperados(vistas(consumidores@), vistas(relaciones@), vistas(datos@), rutas);
            &&& vistas_streams(r@) == ss
            &&& vistas_acciones(final(acciones)@) == vistas_acciones(old(acciones)@) + guardados(
                consumidores_de_lineas(vistas(consumidores@)),
                resources_path@ + consumers_path@,
            ) + acciones_de_streams(ss)
            &&& forall|i: int| 0 <= i < r@.len() ==> (#[trigger] r@[i])@.subjects.len() == 1
        }),
{
    let ghost a0 = vistas_acciones(acciones@);
    let mut archivo = String::from_str(resources_path);
    archivo.append(consumers_path);
    let cs = load_consumers(consumidores, archivo.as_str(), acciones);
    let ghost a1 = vistas_acciones(acciones@);
    let (m, _) = repartir_consumidores(cs, relaciones);
    let r = streams_de_lineas(
        m,
        datos,
        resources_path,
        data_path,
        consumers_path,
        jet_stream_consumers_path,
        acciones,
    );
    proof {
        let rutas = (resources_path@, data_path@, consumers_path@, jet_stream_consumers_path@);
        lema_un_subject(
            repartir(consumidores_de_lineas(vistas(consumidores@)), vistas(relaciones@)).0,
            vistas(datos@),
            rutas,
        );
        assert forall|i: int| 0 <= i < r@.len() implies (#[trigger] r@[i])@.subjects.len() == 1 by {
            assert(vistas_streams(r@)[i] == r@[i]@);
        }
    }
    r
}

/// Recupera los JetStreams de las líneas de los archivos de siempre.
pub fn load_file_storage(
    consumidores: &Vec<String>,
    relaciones: &Vec<String>,
    datos: &Vec<String>,
    acciones: &mut Vec<Accion>,
) -> (r: Vec<JetStream>)
    requires
        ids_acotados(vistas(datos@)),
    ensures
        ({
            let rutas = (RESOURCES_PATH@, JETSTREAM_DATA_PATH@, CONSUMERS_PATH@, JETSTREAM_CONSUMERS_PATH@);
            let ss = streams_recuperados(vistas(consumidores@), vistas(relaciones@), vistas(datos@), rutas);
            &&& vistas_streams(r@) == ss
            &&& vistas_acciones(final(acciones)@) == vistas_acciones(old(acciones)@) + guardados(
                consumidores_de_lineas(vistas(consumidores@)),
                RESOURCES_PATH@ + CONSUMERS_PATH@,
            ) + acciones_de_streams(ss)
            &&& forall|i: int| 0 <= i < r@.len() ==> (#[trigger] r@[i])@.subjects.len() == 1
        }),
{
    _load_file_storage(
        consumidores,
        relaciones,
        datos,
        RESOURCES_PATH,
        JETSTREAM_DATA_PATH,
        CONSUMERS_PATH,
        JETSTREAM_CONSUMERS_PATH,
        acciones,
    )
}

/// Indica si los ids de los mensajes de las líneas de datos admiten un siguiente.
pub fn ids_acotados_exec(datos: &Vec<String>) -> (r: bool)
    ensures
        r == ids_acotados(vistas(datos@)),
{
    let ghost ls = vistas(datos@);
    for i in 0..datos.len()
        invariant
            ls == vistas(datos@),
            ls.len() == datos@.len(),
            forall|a: int, j: int|
                0 <= a < i && 0 <= j < mensajes_de_linea(ls[a]).len() ==> (
                #[trigger] mensajes_de_linea(ls[a])[j]).1 < usize::MAX,
    {
        assert(ls[i as int] == datos@[i as int]@);
        match parse_js_data(datos[i].as_str()) {
            Ok((_, _, ms)) => {
                for j in 0..ms.len()
                    invariant
                        ls == vistas(datos@),
                        i < ls.len(),
                        ls[i as int] == datos@[i as int]@,
                        vistas_mensajes(ms@) == mensajes_de_linea(ls[i as int]),
                        forall|k: int| 0 <= k < j ==> (#[trigger] ms@[k]).1 < usize::MAX,
                {
                    if ms[j].1 == usize::MAX {
                        assert(vistas_mensajes(ms@)[j as int].1 == usize::MAX);
                        assert(mensajes_de_linea(vistas(datos@)[i as int])[j as int].1 == usize::MAX);
                        return false;
                    }
                }
                assert forall|j: int| 0 <= j < mensajes_de_linea(ls[i as int]).len() implies (
                #[trigger] mensajes_de_linea(ls[i as int])[j]).1 < usize::MAX by {
                    assert(vistas_mensajes(ms@)[j].1 == ms@[j].1);
                }
            },
            Err(_) => {},
        }
    }
    true
}

} // verus!
