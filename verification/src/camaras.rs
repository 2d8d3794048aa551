//! La lógica de la central de cámaras: cada cámara graba mientras tenga un
//! incidente en su área o sea lindante de una cámara que lo tiene, y vuelve a
//! ahorro de energía cuando deja de tenerlos. Qué cámaras están en el área de
//! un incidente o son lindantes de otra lo decide quien conoce sus posiciones.
use vstd::prelude::*;
use vstd::string::*;
use crate::monitoreo::{EstadoCamara, ErroresCentral};
use crate::ejecutor::contiene;
use crate::texto::textos_iguales;

verus! {

/// Vista de una cámara: su id, su estado, los incidentes de su área y cuántas
/// veces quedó marcada como lindante de una cámara con incidente (se descuenta
/// una vez por cada incidente propio).
pub struct CamaraV {
    pub id: usize,
    pub estado: EstadoCamara,
    pub incidentes: Seq<i32>,
    pub numlindantes: int,
}

/// Una cámara de la central. Empieza en ahorro de energía.
#[derive(Debug)]
pub struct Camara {
    pub id: usize,
    estado: EstadoCamara,
    incidentes_id: Vec<i32>,
    numlindantes: i32,
}

impl View for Camara {
    type V = CamaraV;

    closed spec fn view(&self) -> CamaraV {
        CamaraV {
            id: self.id,
            estado: self.estado,
            incidentes: self.incidentes_id@,
            numlindantes: self.numlindantes as int,
        }
    }
}

/// La secuencia sin la primera aparición de `x`.
pub open spec fn sin_primero(s: Seq<i32>, x: i32) -> Seq<i32>
    decreases s.len(),
{
    if s.len() == 0 {
        s
    } else if s[0] == x {
        s.drop_first()
    } else {
        seq![s[0]] + sin_primero(s.drop_first(), x)
    }
}

/// Quitar la primera aparición, que está en `k`, es quitar la posición `k`.
proof fn lema_sin_primero(s: Seq<i32>, x: i32, k: int)
    requires
        0 <= k < s.len(),
        s[k] == x,
        forall|j: int| 0 <= j < k ==> s[j] != x,
    ensures
        sin_primero(s, x) == s.remove(k),
    decreases k,
{
    if k > 0 {
        lema_sin_primero(s.drop_first(), x, k - 1);
        assert(seq![s[0]] + s.drop_first().remove(k - 1) =~= s.remove(k));
    } else {
        assert(s.drop_first() =~= s.remove(0));
    }
}

impl Camara {
    /// Una cámara con ese id, en ahorro de energía, sin incidentes.
    pub fn new(id: usize) -> (r: Camara)
        ensures
            r@ == (CamaraV {
                id,
                estado: EstadoCamara::AhorroDeEnergia,
                incidentes: Seq::empty(),
                numlindantes: 0,
            }),
    {
        Camara { id, estado: EstadoCamara::AhorroDeEnergia, incidentes_id: Vec::new(), numlindantes: 0 }
    }

    /// Agrega un incidente a los de su área.
    pub fn agregar_incidente(&mut self, id: i32)
        ensures
            final(self)@ == (CamaraV { incidentes: old(self)@.incidentes.push(id), ..old(self)@ }),
    {
        self.incidentes_id.push(id);
    }

    /// Quita la primera aparición de un incidente de su área.
    pub fn quitar_incidente(&mut self, id: i32)
        requires
            old(self)@.incidentes.contains(id),
        ensures
            final(self)@ == (CamaraV { incidentes: sin_primero(old(self)@.incidentes, id), ..old(self)@ }),
    {
        let ghost s = self.incidentes_id@;
        let mut k: usize = 0;
        while k < self.incidentes_id.len() && self.incidentes_id[k] != id
            invariant
                s == self.incidentes_id@,
                s.contains(id),
                k <= s.len(),
                forall|j: int| 0 <= j < k ==> s[j] != id,
            decreases s.len() - k,
        {
            k = k + 1;
        }
        if k == self.incidentes_id.len() {
            assert(false);
        }
        proof {
            lema_sin_primero(s, id, k as int);
        }
        self.incidentes_id.remove(k);
    }

    /// Cuántos incidentes tiene en su área.
    pub fn get_cantidad_incidentes(&self) -> (r: usize)
        ensures
            r == self@.incidentes.len(),
    {
        self.incidentes_id.len()
    }

    /// Si el incidente está en su área.
    pub fn contiene_incidente(&self, id: i32) -> (r: bool)
        ensures
            r == self@.incidentes.contains(id),
    {
        for i in 0..self.incidentes_id.len()
            invariant
                forall|j: int| 0 <= j < i ==> self.incidentes_id@[j] != id,
        {
            if self.incidentes_id[i] == id {
                return true;
            }
        }
        false
    }

    /// Pasa a grabar.
    pub fn set_estado_grabar(&mut self)
        ensures
            final(self)@ == (CamaraV { estado: EstadoCamara::Grabando, ..old(self)@ }),
    {
        self.estado = EstadoCamara::Grabando;
    }

    /// Pasa a ahorro de energía.
    pub fn set_estado_ahorro_de_energia(&mut self)
        ensures
            final(self)@ == (CamaraV { estado: EstadoCamara::AhorroDeEnergia, ..old(self)@ }),
    {
        self.estado = EstadoCamara::AhorroDeEnergia;
    }

    /// El estado de la cámara.
    pub fn get_estado(&self) -> (r: EstadoCamara)
        ensures
            r == self@.estado,
    {
        self.estado
    }

    /// El id de la cámara.
    pub fn get_id(&self) -> (r: usize)
        ensures
            r == self@.id,
    {
        self.id
    }

    /// El contador de lindancia.
    pub fn numlindantes(&self) -> (r: i32)
        ensures
            r as int == self@.numlindantes,
    {
        self.numlindantes
    }

    /// Una copia de la cámara.
    fn copia(&self) -> (r: Camara)
        ensures
            r@ == self@,
    {
        let mut incidentes: Vec<i32> = Vec::new();
        for i in 0..self.incidentes_id.len()
            invariant
                incidentes@ == self.incidentes_id@.take(i as int),
        {
            incidentes.push(self.incidentes_id[i]);
            assert(self.incidentes_id@.take(i + 1) =~= self.incidentes_id@.take(i as int).push(
                self.incidentes_id@[i as int],
            ));
        }
        assert(self.incidentes_id@.take(self.incidentes_id@.len() as int) =~= self.incidentes_id@);
        Camara { id: self.id, estado: self.estado, incidentes_id: incidentes, numlindantes: self.numlindantes }
    }
}

/// Cómo se actualiza cada cámara alcanzada al procesar un incidente.
#[derive(Debug, Clone, Copy)]
pub enum Modo {
    /// La cámara está en el área de un incidente pendiente.
    IncidentePendiente(i32),
    /// La cámara es lindante de una cámara con un incidente pendiente.
    LindantePendiente,
    /// La cámara está en el área de un incidente cancelado.
    IncidenteCancelado(i32),
    /// La cámara es lindante de una cámara cuyo incidente se canceló.
    LindanteCancelado,
}

/// Un cambio de estado de una cámara, que se informa.
#[derive(Debug, Clone, Copy, PartialEq, Eq, Structural)]
pub struct Cambio {
    pub camara: usize,
    pub estado: EstadoCamara,
}

/// Si estaba en ahorro de energía, pasa a grabar y se informa.
pub open spec fn grabar_si_ahorro(c: CamaraV) -> (CamaraV, Option<EstadoCamara>) {
    if c.estado == EstadoCamara::AhorroDeEnergia {
        (CamaraV { estado: EstadoCamara::Grabando, ..c }, Some(EstadoCamara::Grabando))
    } else {
        (c, None)
    }
}

/// Si no tiene incidentes ni lindancias, pasa a ahorro de energía y se informa.
pub open spec fn ahorro_si_libre(c: CamaraV) -> (CamaraV, Option<EstadoCamara>) {
    if c.incidentes.len() == 0 && c.numlindantes == 0 {
        (CamaraV { estado: EstadoCamara::AhorroDeEnergia, ..c }, Some(EstadoCamara::AhorroDeEnergia))
    } else {
        (c, None)
    }
}

/// La cámara actualizada según el modo y el estado a informar, si cambia;
/// `None` si el contador de lindancia se sale de un `i32`.
pub open spec fn actualizar(c: CamaraV, m: Modo) -> Option<(CamaraV, Option<EstadoCamara>)> {
    match m {
        Modo::IncidentePendiente(inc) => if c.incidentes.contains(inc) {
            Some((c, None))
        } else if c.numlindantes - 1 < i32::MIN {
            None
        } else {
            Some(grabar_si_ahorro(CamaraV { incidentes: c.incidentes.push(inc), numlindantes: c.numlindantes - 1, ..c }))
        },
        Modo::LindantePendiente => if c.numlindantes + 1 > i32::MAX {
            None
        } else {
            Some(grabar_si_ahorro(CamaraV { numlindantes: c.numlindantes + 1, ..c }))
        },
        Modo::IncidenteCancelado(inc) => if c.numlindantes + 1 > i32::MAX {
            None
        } else if c.incidentes.contains(inc) {
            Some(ahorro_si_libre(CamaraV { incidentes: sin_primero(c.incidentes, inc), numlindantes: c.numlindantes + 1, ..c }))
        } else {
            Some((CamaraV { numlindantes: c.numlindantes + 1, ..c }, None))
        },
        Modo::LindanteCancelado => if c.numlindantes - 1 < i32::MIN {
            None
        } else {
            Some(ahorro_si_libre(CamaraV { numlindantes: c.numlindantes - 1, ..c }))
        },
    }
}

/// Actualiza una copia de la cámara según el modo.
fn actualizar_camara(c: &Camara, m: Modo) -> (r: Option<(Camara, Option<EstadoCamara>)>)
    ensures
        match (r, actualizar(c@, m)) {
            (Some((a, e)), Some((b, f))) => a@ == b && e == f,
            (None, None) => true,
            _ => false,
        },
{
    let mut n = c.copia();
    match m {
        Modo::IncidentePendiente(inc) => {
            if n.contiene_incidente(inc) {
                return Some((n, None));
            }
            if n.numlindantes == i32::MIN {
                return None;
            }
            n.agregar_incidente(inc);
            n.numlindantes = n.numlindantes - 1;
            Some(grabar(n))
        },
        Modo::LindantePendiente => {
            if n.numlindantes == i32::MAX {
                return None;
            }
            n.numlindantes = n.numlindantes + 1;
            Some(grabar(n))
        },
        Modo::IncidenteCancelado(inc) => {
            if n.numlindantes == i32::MAX {
                return None;
            }
            n.numlindantes = n.numlindantes + 1;
            if n.contiene_incidente(inc) {
                n.quitar_incidente(inc);
                Some(liberar(n))
            } else {
                Some((n, None))
            }
        },
        Modo::LindanteCancelado => {
            if n.numlindantes == i32::MIN {
                return None;
            }
            n.numlindantes = n.numlindantes - 1;
            Some(liberar(n))
        },
    }
}

/// Pasa a grabar si estaba en ahorro de energía.
fn grabar(c: Camara) -> (r: (Camara, Option<EstadoCamara>))
    ensures
        (r.0@, r.1) == grabar_si_ahorro(c@),
{
    let mut c = c;
    if c.estado == EstadoCamara::AhorroDeEnergia {
        c.set_estado_grabar();
        (c, Some(EstadoCamara::Grabando))
    } else {
        (c, None)
    }
}

/// Pasa a ahorro de energía si no tiene incidentes ni lindancias.
fn liberar(c: Camara) -> (r: (Camara, Option<EstadoCamara>))
    ensures
        (r.0@, r.1) == ahorro_si_libre(c@),
{
    let mut c = c;
    if c.get_cantidad_incidentes() == 0 && c.numlindantes == 0 {
        c.set_estado_ahorro_de_energia();
        (c, Some(EstadoCamara::AhorroDeEnergia))
    } else {
        (c, None)
    }
}

/// Las vistas de una lista de cámaras.
pub open spec fn vistas_camaras(v: Seq<Camara>) -> Seq<CamaraV> {
    v.map_values(|c: Camara| c@)
}

/// Los ids de una lista de cámaras.
pub open spec fn ids_de(cams: Seq<CamaraV>) -> Seq<usize> {
    cams.map_values(|c: CamaraV| c.id)
}

/// Una pasada por la lista, en orden: cada cámara cuyo id está en `ids` se
/// actualiza según el modo y se anotan sus cambios de estado; `None` si algún
/// contador se sale de un `i32`.
pub open spec fn pasada(cams: Seq<CamaraV>, ids: Seq<usize>, m: Modo) -> Option<(Seq<CamaraV>, Seq<Cambio>)>
    decreases cams.len(),
{
    if cams.len() == 0 {
        Some((Seq::empty(), Seq::empty()))
    } else {
        match pasada(cams.drop_last(), ids, m) {
            None => None,
            Some((r, ch)) => {
                let c = cams.last();
                if ids.contains(c.id) {
                    match actualizar(c, m) {
                        None => None,
                        Some((c2, e)) => Some(
                            (
                                r.push(c2),
                                match e {
                                    Some(x) => ch.push(Cambio { camara: c.id, estado: x }),
                                    None => ch,
                                },
                            ),
                        ),
                    }
                } else {
                    Some((r.push(c), ch))
                }
            },
        }
    }
}

/// Una pasada no cambia los ids ni cuántas cámaras hay.
proof fn lema_pasada_ids(cams: Seq<CamaraV>, ids: Seq<usize>, m: Modo)
    ensures
        pasada(cams, ids, m) matches Some((r, _)) ==> ids_de(r) == ids_de(cams),
    decreases cams.len(),
{
    if cams.len() > 0 {
        lema_pasada_ids(cams.drop_last(), ids, m);
        if let Some((r, _)) = pasada(cams, ids, m) {
            let previo = pasada(cams.drop_last(), ids, m)->0;
            let r0 = previo.0;
            assert(ids_de(cams) =~= ids_de(cams.drop_last()).push(cams.last().id));
            assert(r =~= r0.push(r.last()));
            assert(ids_de(r) =~= ids_de(r0).push(r.last().id));
        }
    }
}

/// Hace una pasada sobre las cámaras.
fn hacer_pasada(cams: &Vec<Camara>, ids: &Vec<usize>, m: Modo) -> (r: Option<(Vec<Camara>, Vec<Cambio>)>)
    ensures
        match (r, pasada(vistas_camaras(cams@), ids@, m)) {
            (Some((a, ch)), Some((b, dh))) => vistas_camaras(a@) == b && ch@ == dh,
            (None, None) => true,
            _ => false,
        },
{
    let ghost vs = vistas_camaras(cams@);
    let mut nuevas: Vec<Camara> = Vec::new();
    let mut cambios: Vec<Cambio> = Vec::new();
    for i in 0..cams.len()
        invariant
            vs == vistas_camaras(cams@),
            vs.len() == cams@.len(),
            pasada(vs.take(i as int), ids@, m) matches Some((b, dh)) && vistas_camaras(nuevas@) == b
                && cambios@ == dh,
    {
        assert(vs.take(i + 1).drop_last() =~= vs.take(i as int));
        assert(vs.take(i + 1).last() == cams@[i as int]@);
        let c = &cams[i];
        let ghost antes = nuevas@;
        if contiene(ids, c.id) {
            match actualizar_camara(c, m) {
                None => {
                    proof {
                        lema_pasada_none(vs, ids@, m, i + 1);
                    }
                    return None;
                },
                Some((c2, e)) => {
                    nuevas.push(c2);
                    match e {
                        Some(x) => cambios.push(Cambio { camara: c.id, estado: x }),
                        None => {},
                    }
                },
            }
        } else {
            nuevas.push(c.copia());
        }
        assert(vistas_camaras(nuevas@) =~= vistas_camaras(antes).push(nuevas@.last()@));
    }
    assert(vs.take(vs.len() as int) =~= vs);
    Some((nuevas, cambios))
}

/// Si una pasada sobre un prefijo se sale de rango, la pasada entera también.
proof fn lema_pasada_none(cams: Seq<CamaraV>, ids: Seq<usize>, m: Modo, k: int)
    requires
        0 <= k <= cams.len(),
        pasada(cams.take(k), ids, m) is None,
    ensures
        pasada(cams, ids, m) is None,
    decreases cams.len() - k,
{
    if k < cams.len() {
        assert(cams.take(k + 1).drop_last() =~= cams.take(k));
        lema_pasada_none(cams, ids, m, k + 1);
    } else {
        assert(cams.take(k) =~= cams);
    }
}

/// Tras la primera pasada de un incidente: cada cámara del área (fuente, en
/// orden) hace una pasada sobre sus lindantes; `k` es cuántas cámaras de la
/// lista se miraron como posibles fuentes.
pub open spec fn por_fuentes(
    cams: Seq<CamaraV>,
    ids: Seq<usize>,
    rango: Seq<usize>,
    lind: Seq<Seq<usize>>,
    m: Modo,
    k: nat,
) -> Option<(Seq<CamaraV>, Seq<Cambio>)>
    decreases k,
{
    if k == 0 {
        Some((cams, Seq::empty()))
    } else {
        match por_fuentes(cams, ids, rango, lind, m, (k - 1) as nat) {
            None => None,
            Some((c, ch)) => if rango.contains(ids[k - 1]) {
                match pasada(c, lind[k - 1], m) {
                    None => None,
                    Some((c2, ch2)) => Some((c2, ch + ch2)),
                }
            } else {
                Some((c, ch))
            },
        }
    }
}

/// Si no se puede seguir desde `k` fuentes, tampoco desde más.
proof fn lema_fuentes_none(
    cams: Seq<CamaraV>,
    ids: Seq<usize>,
    rango: Seq<usize>,
    lind: Seq<Seq<usize>>,
    m: Modo,
    k: nat,
    n: nat,
)
    requires
        k <= n,
        por_fuentes(cams, ids, rango, lind, m, k) is None,
    ensures
        por_fuentes(cams, ids, rango, lind, m, n) is None,
    decreases n - k,
{
    if k < n {
        lema_fuentes_none(cams, ids, rango, lind, m, k + 1, n);
    }
}

/// Las pasadas de lindancia de cada fuente, en orden.
fn pasar_por_fuentes(
    cams: Vec<Camara>,
    ids: Ghost<Seq<usize>>,
    rango: &Vec<usize>,
    lind: &Vec<Vec<usize>>,
    m: Modo,
) -> (r: Option<(Vec<Camara>, Vec<Cambio>)>)
    requires
        ids@ == ids_de(vistas_camaras(cams@)),
        lind@.len() == cams@.len(),
    ensures
        match (r, por_fuentes(vistas_camaras(cams@), ids@, rango@, lind@.map_values(|l: Vec<usize>| l@), m, cams@.len() as nat)) {
            (Some((a, ch)), Some((b, dh))) => vistas_camaras(a@) == b && ch@ == dh,
            (None, None) => true,
            _ => false,
        },
{
    let ghost v0 = vistas_camaras(cams@);
    let ghost ls = lind@.map_values(|l: Vec<usize>| l@);
    let n = cams.len();
    let mut actual = cams;
    let mut cambios: Vec<Cambio> = Vec::new();
    for i in 0..n
        invariant
            v0 == vistas_camaras(cams@),
            n == v0.len(),
            ids@ == ids_de(v0),
            ls == lind@.map_values(|l: Vec<usize>| l@),
            lind@.len() == n,
            por_fuentes(v0, ids@, rango@, ls, m, i as nat) matches Some((b, dh)) && vistas_camaras(actual@) == b
                && cambios@ == dh,
            ids_de(vistas_camaras(actual@)) == ids@,
            actual@.len() == n,
    {
        let ghost va = vistas_camaras(actual@);
        assert(ids_de(va)[i as int] == va[i as int].id);
        assert(va[i as int] == actual@[i as int]@);
        let id = actual[i].id;
        assert(ids@[i as int] == id);
        if contiene(rango, id) {
            assert(ls[i as int] == lind@[i as int]@);
            match hacer_pasada(&actual, &lind[i], m) {
                None => {
                    proof {
                        lema_fuentes_none(v0, ids@, rango@, ls, m, (i + 1) as nat, n as nat);
                    }
                    return None;
                },
                Some((c2, mut ch2)) => {
                    proof {
                        lema_pasada_ids(va, ls[i as int], m);
                        assert(ids_de(vistas_camaras(c2@)).len() == n);
                    }
                    actual = c2;
                    let ghost antes = cambios@;
                    cambios.append(&mut ch2);
                },
            }
        }
    }
    Some((actual, cambios))
}

/// `k` rondas de pasadas de lindancia cancelada sobre las cámaras de `ids`.
pub open spec fn rondas(cams: Seq<CamaraV>, ids: Seq<usize>, k: nat) -> Option<(Seq<CamaraV>, Seq<Cambio>)>
    decreases k,
{
    if k == 0 {
        Some((cams, Seq::empty()))
    } else {
        match rondas(cams, ids, (k - 1) as nat) {
            None => None,
            Some((c, ch)) => match pasada(c, ids, Modo::LindanteCancelado) {
                None => None,
                Some((c2, ch2)) => Some((c2, ch + ch2)),
            },
        }
    }
}

/// Si una ronda no se puede hacer, tampoco las siguientes.
proof fn lema_rondas_none(cams: Seq<CamaraV>, ids: Seq<usize>, k: nat, n: nat)
    requires
        k <= n,
        rondas(cams, ids, k) is None,
    ensures
        rondas(cams, ids, n) is None,
    decreases n - k,
{
    if k < n {
        lema_rondas_none(cams, ids, k + 1, n);
    }
}

/// Las rondas no cambian los ids.
proof fn lema_rondas_ids(cams: Seq<CamaraV>, ids: Seq<usize>, k: nat)
    ensures
        rondas(cams, ids, k) matches Some((r, _)) ==> ids_de(r) == ids_de(cams),
    decreases k,
{
    if k > 0 {
        lema_rondas_ids(cams, ids, (k - 1) as nat);
        if let Some((c, _)) = rondas(cams, ids, (k - 1) as nat) {
            lema_pasada_ids(c, ids, Modo::LindanteCancelado);
        }
    }
}

/// Hace `k` rondas de lindancia cancelada.
fn hacer_rondas(cams: Vec<Camara>, ids: &Vec<usize>, k: usize) -> (r: Option<(Vec<Camara>, Vec<Cambio>)>)
    ensures
        match (r, rondas(vistas_camaras(cams@), ids@, k as nat)) {
            (Some((a, ch)), Some((b, dh))) => vistas_camaras(a@) == b && ch@ == dh,
            (None, None) => true,
            _ => false,
        },
{
    let ghost v0 = vistas_camaras(cams@);
    let mut actual = cams;
    let mut cambios: Vec<Cambio> = Vec::new();
    for i in 0..k
        invariant
            v0 == vistas_camaras(cams@),
            rondas(v0, ids@, i as nat) matches Some((b, dh)) && vistas_camaras(actual@) == b && cambios@ == dh,
    {
        match hacer_pasada(&actual, ids, Modo::LindanteCancelado) {
            None => {
                proof {
                    assert(rondas(v0, ids@, (i + 1) as nat) is None);
                    lema_rondas_none(v0, ids@, (i + 1) as nat, k as nat);
                }
                return None;
            },
            Some((c2, mut ch2)) => {
                actual = c2;
                cambios.append(&mut ch2);
            },
        }
    }
    Some((actual, cambios))
}

/// Una cámara con incidentes en su área está grabando.
pub open spec fn graba_si_tiene(c: CamaraV) -> bool {
    c.incidentes.len() > 0 ==> c.estado == EstadoCamara::Grabando
}

/// Toda cámara de la lista con incidentes en su área está grabando.
pub open spec fn todas_graban_si_tienen(cams: Seq<CamaraV>) -> bool {
    forall|i: int| 0 <= i < cams.len() ==> graba_si_tiene(#[trigger] cams[i])
}

/// Actualizar una cámara mantiene que graba si tiene incidentes.
proof fn lema_actualizar_graba(c: CamaraV, m: Modo)
    requires
        graba_si_tiene(c),
    ensures
        actualizar(c, m) matches Some((c2, _)) ==> graba_si_tiene(c2) && c2.id == c.id,
{
    match m {
        Modo::IncidenteCancelado(inc) => {
            if c.incidentes.contains(inc) && c.numlindantes + 1 <= i32::MAX {
                lema_sin_primero_largo(c.incidentes, inc);
            }
        },
        _ => {},
    }
}

/// Quitar una aparición acorta la secuencia en uno.
proof fn lema_sin_primero_largo(s: Seq<i32>, x: i32)
    requires
        s.contains(x),
    ensures
        sin_primero(s, x).len() == s.len() - 1,
    decreases s.len(),
{
    if s[0] != x {
        let k = choose|k: int| 0 <= k < s.len() && s[k] == x;
        assert(s.drop_first()[k - 1] == x);
        lema_sin_primero_largo(s.drop_first(), x);
    }
}

/// Una pasada mantiene que cada cámara graba si tiene incidentes.
proof fn lema_pasada_graba(cams: Seq<CamaraV>, ids: Seq<usize>, m: Modo)
    requires
        todas_graban_si_tienen(cams),
    ensures
        pasada(cams, ids, m) matches Some((r, _)) ==> todas_graban_si_tienen(r) && r.len() == cams.len(),
    decreases cams.len(),
{
    if cams.len() > 0 {
        assert(graba_si_tiene(cams[cams.len() - 1]));
        assert(todas_graban_si_tienen(cams.drop_last())) by {
            assert forall|i: int| 0 <= i < cams.drop_last().len() implies graba_si_tiene(
                #[trigger] cams.drop_last()[i],
            ) by {
                assert(graba_si_tiene(cams[i]));
            }
        }
        lema_pasada_graba(cams.drop_last(), ids, m);
        lema_actualizar_graba(cams.last(), m);
        if let Some((r, _)) = pasada(cams, ids, m) {
            let previo = pasada(cams.drop_last(), ids, m)->0;
            let r0 = previo.0;
            assert forall|i: int| 0 <= i < r.len() implies graba_si_tiene(#[trigger] r[i]) by {
                if i < r0.len() {
                    assert(r[i] == r0[i]);
                }
            }
        }
    }
}

/// Las pasadas de las fuentes mantienen que cada cámara graba si tiene incidentes.
proof fn lema_fuentes_graba(
    cams: Seq<CamaraV>,
    ids: Seq<usize>,
    rango: Seq<usize>,
    lind: Seq<Seq<usize>>,
    m: Modo,
    k: nat,
)
    requires
        todas_graban_si_tienen(cams),
    ensures
        por_fuentes(cams, ids, rango, lind, m, k) matches Some((r, _)) ==> todas_graban_si_tienen(r) && r.len()
            == cams.len(),
    decreases k,
{
    if k > 0 {
        lema_fuentes_graba(cams, ids, rango, lind, m, (k - 1) as nat);
        if let Some((c, _)) = por_fuentes(cams, ids, rango, lind, m, (k - 1) as nat) {
            lema_pasada_graba(c, lind[k - 1], m);
        }
    }
}

/// Las rondas mantienen que cada cámara graba si tiene incidentes.
proof fn lema_rondas_graba(cams: Seq<CamaraV>, ids: Seq<usize>, k: nat)
    requires
        todas_graban_si_tienen(cams),
    ensures
        rondas(cams, ids, k) matches Some((r, _)) ==> todas_graban_si_tienen(r) && r.len() == cams.len(),
    decreases k,
{
    if k > 0 {
        lema_rondas_graba(cams, ids, (k - 1) as nat);
        if let Some((c, _)) = rondas(cams, ids, (k - 1) as nat) {
            lema_pasada_graba(c, ids, Modo::LindanteCancelado);
        }
    }
}

/// Las pasadas de las fuentes no cambian los ids.
proof fn lema_fuentes_ids(
    cams: Seq<CamaraV>,
    ids: Seq<usize>,
    rango: Seq<usize>,
    lind: Seq<Seq<usize>>,
    m: Modo,
    k: nat,
)
    ensures
        por_fuentes(cams, ids, rango, lind, m, k) matches Some((r, _)) ==> ids_de(r) == ids_de(cams),
    decreases k,
{
    if k > 0 {
        lema_fuentes_ids(cams, ids, rango, lind, m, (k - 1) as nat);
        if let Some((c, _)) = por_fuentes(cams, ids, rango, lind, m, (k - 1) as nat) {
            lema_pasada_ids(c, lind[k - 1], m);
        }
    }
}

/// La cámara tras actualizarla (la misma si el contador se sale de rango).
pub open spec fn actualizada(c: CamaraV, m: Modo) -> CamaraV {
    match actualizar(c, m) {
        Some((c2, _)) => c2,
        None => c,
    }
}

/// Una pasada actualiza cada cámara elegida por su cuenta y deja las demás igual.
proof fn lema_pasada_elem(cams: Seq<CamaraV>, ids: Seq<usize>, m: Modo)
    ensures
        pasada(cams, ids, m) matches Some((r, _)) ==> {
            &&& r.len() == cams.len()
            &&& forall|j: int|
                0 <= j < cams.len() ==> #[trigger] r[j] == if ids.contains(cams[j].id) {
                    actualizada(cams[j], m)
                } else {
                    cams[j]
                }
            &&& forall|j: int|
                0 <= j < cams.len() && ids.contains(cams[j].id) ==> actualizar(#[trigger] cams[j], m) is Some
        },
    decreases cams.len(),
{
    if cams.len() > 0 {
        lema_pasada_elem(cams.drop_last(), ids, m);
        if let Some((r, _)) = pasada(cams, ids, m) {
            let previo = pasada(cams.drop_last(), ids, m)->0;
            let r0 = previo.0;
            assert forall|j: int| 0 <= j < cams.len() implies #[trigger] r[j] == if ids.contains(cams[j].id) {
                actualizada(cams[j], m)
            } else {
                cams[j]
            } by {
                if j < cams.len() - 1 {
                    assert(r[j] == r0[j]);
                    assert(cams.drop_last()[j] == cams[j]);
                }
            }
            assert forall|j: int| 0 <= j < cams.len() && ids.contains(cams[j].id) implies actualizar(
                #[trigger] cams[j],
                m,
            ) is Some by {
                if j < cams.len() - 1 {
                    assert(cams.drop_last()[j] == cams[j]);
                }
            }
        }
    }
}

/// Con un incidente pendiente, una cámara graba tras actualizarla.
proof fn lema_pendiente_graba(c: CamaraV, inc: i32)
    requires
        graba_si_tiene(c),
        actualizar(c, Modo::IncidentePendiente(inc)) is Some,
    ensures
        actualizada(c, Modo::IncidentePendiente(inc)).estado == EstadoCamara::Grabando,
{
    if c.incidentes.contains(inc) {
        assert(c.incidentes.len() > 0);
    }
}

/// Las pasadas de lindancia pendiente dejan grabando a las que grababan y a
/// las lindantes de cada fuente ya mirada.
proof fn lema_fuentes_pendiente(
    cams: Seq<CamaraV>,
    ids: Seq<usize>,
    rango: Seq<usize>,
    lind: Seq<Seq<usize>>,
    k: nat,
)
    requires
        ids == ids_de(cams),
        k <= cams.len(),
    ensures
        por_fuentes(cams, ids, rango, lind, Modo::LindantePendiente, k) matches Some((r, _)) ==> {
            &&& r.len() == cams.len()
            &&& ids_de(r) == ids
            &&& forall|j: int|
                0 <= j < cams.len() ==> ((cams[j].estado == EstadoCamara::Grabando || exists|i: int|
                    0 <= i < k && rango.contains(ids[i]) && #[trigger] lind[i].contains(ids[j]))
                    ==> (#[trigger] r[j]).estado == EstadoCamara::Grabando)
        },
    decreases k,
{
    if k > 0 {
        lema_fuentes_pendiente(cams, ids, rango, lind, (k - 1) as nat);
        lema_fuentes_ids(cams, ids, rango, lind, Modo::LindantePendiente, k);
        lema_fuentes_graba_len(cams, ids, rango, lind, Modo::LindantePendiente, k);
        if let Some((r, _)) = por_fuentes(cams, ids, rango, lind, Modo::LindantePendiente, k) {
            let previo = por_fuentes(cams, ids, rango, lind, Modo::LindantePendiente, (k - 1) as nat)->0;
            let c = previo.0;
            if rango.contains(ids[k - 1]) {
                lema_pasada_elem(c, lind[k - 1], Modo::LindantePendiente);
                assert(ids_de(c) == ids);
                assert forall|j: int|
                    0 <= j < cams.len() && ((cams[j].estado == EstadoCamara::Grabando || exists|i: int|
                        0 <= i < k && rango.contains(ids[i]) && #[trigger] lind[i].contains(ids[j]))) implies (
                    #[trigger] r[j]).estado == EstadoCamara::Grabando by {
                    assert(ids_de(c)[j] == c[j].id);
                    if lind[k - 1].contains(c[j].id) {
                        assert(r[j] == actualizada(c[j], Modo::LindantePendiente));
                        assert(actualizar(c[j], Modo::LindantePendiente) is Some);
                    } else {
                        assert(r[j] == c[j]);
                        if !(cams[j].estado == EstadoCamara::Grabando) {
                            let i = choose|i: int|
                                0 <= i < k && rango.contains(ids[i]) && #[trigger] lind[i].contains(ids[j]);
                            assert(i < k - 1);
                        }
                    }
                }
            } else {
                assert forall|j: int|
                    0 <= j < cams.len() && ((cams[j].estado == EstadoCamara::Grabando || exists|i: int|
                        0 <= i < k && rango.contains(ids[i]) && #[trigger] lind[i].contains(ids[j]))) implies (
                    #[trigger] r[j]).estado == EstadoCamara::Grabando by {
                    if !(cams[j].estado == EstadoCamara::Grabando) {
                        let i = choose|i: int|
                            0 <= i < k && rango.contains(ids[i]) && #[trigger] lind[i].contains(ids[j]);
                        assert(i < k - 1);
                    }
                }
            }
        }
    }
}

/// Las pasadas de las fuentes no cambian cuántas cámaras hay.
proof fn lema_fuentes_graba_len(
    cams: Seq<CamaraV>,
    ids: Seq<usize>,
    rango: Seq<usize>,
    lind: Seq<Seq<usize>>,
    m: Modo,
    k: nat,
)
    ensures
        por_fuentes(cams, ids, rango, lind, m, k) matches Some((r, _)) ==> r.len() == cams.len(),
    decreases k,
{
    if k > 0 {
        lema_fuentes_graba_len(cams, ids, rango, lind, m, (k - 1) as nat);
        if let Some((c, _)) = por_fuentes(cams, ids, rango, lind, m, (k - 1) as nat) {
            lema_pasada_elem(c, lind[k - 1], m);
        }
    }
}

/// Tras un incidente pendiente nuevo, graba toda cámara de su área y toda
/// lindante de una cámara de su área.
pub proof fn ley_pendiente_graba(e: CentralV, inc: i32, rango: Seq<usize>, lind: Seq<Seq<usize>>)
    requires
        todas_graban_si_tienen(e.camaras),
        lind.len() == e.camaras.len(),
        !e.incidentes.contains((inc, "pendiente"@)),
    ensures
        tras_incidente(e, inc, "pendiente"@, rango, lind) matches Some((e2, _)) ==> forall|j: int|
            0 <= j < e2.camaras.len() && (rango.contains(e2.camaras[j].id) || exists|i: int|
                0 <= i < e.camaras.len() && rango.contains(e.camaras[i].id) && #[trigger] lind[i].contains(
                    e2.camaras[j].id,
                )) ==> (#[trigger] e2.camaras[j]).estado == EstadoCamara::Grabando,
{
    reveal_strlit("pendiente");
    reveal_strlit("activo");
    assert("pendiente"@ != "activo"@) by {
        assert("pendiente"@[0] != "activo"@[0]);
    }
    let m1 = Modo::IncidentePendiente(inc);
    let ids = ids_de(e.camaras);
    lema_pasada_elem(e.camaras, rango, m1);
    lema_pasada_ids(e.camaras, rango, m1);
    if let Some((c1, _)) = pasada(e.camaras, rango, m1) {
        lema_fuentes_pendiente(c1, ids, rango, lind, e.camaras.len());
        if let Some((c2, _)) = por_fuentes(c1, ids, rango, lind, Modo::LindantePendiente, e.camaras.len()) {
            assert forall|j: int|
                0 <= j < c2.len() && (rango.contains(c2[j].id) || exists|i: int|
                    0 <= i < e.camaras.len() && rango.contains(e.camaras[i].id) && #[trigger] lind[i].contains(
                        c2[j].id,
                    )) implies (#[trigger] c2[j]).estado == EstadoCamara::Grabando by {
                assert(ids_de(c2)[j] == c2[j].id);
                assert(ids[j] == e.camaras[j].id);
                if rango.contains(e.camaras[j].id) {
                    assert(graba_si_tiene(e.camaras[j]));
                    assert(actualizar(e.camaras[j], m1) is Some);
                    lema_pendiente_graba(e.camaras[j], inc);
                    assert(c1[j] == actualizada(e.camaras[j], m1));
                } else {
                    let i = choose|i: int|
                        0 <= i < e.camaras.len() && rango.contains(e.camaras[i].id) && #[trigger] lind[i].contains(
                            c2[j].id,
                        );
                    assert(ids[i] == e.camaras[i].id);
                }
            }
        }
    }
}

/// Cuántas de las primeras `k` cámaras de la lista están en `rango` y tienen a `id` entre sus lindantes.
pub open spec fn veces_lindante(ids: Seq<usize>, rango: Seq<usize>, lind: Seq<Seq<usize>>, id: usize, k: nat) -> int
    decreases k,
{
    if k == 0 {
        0
    } else {
        veces_lindante(ids, rango, lind, id, (k - 1) as nat) + if rango.contains(ids[k - 1]) && lind[k - 1].contains(id) {
            1int
        } else {
            0int
        }
    }
}

/// Las pasadas de lindancia suman (pendiente) o restan (cancelado) a cada
/// cámara una vez por cada fuente de la que es lindante, sin tocar sus incidentes.
proof fn lema_fuentes_cuenta(
    cams: Seq<CamaraV>,
    ids: Seq<usize>,
    rango: Seq<usize>,
    lind: Seq<Seq<usize>>,
    m: Modo,
    k: nat,
)
    requires
        ids == ids_de(cams),
        k <= cams.len(),
        m is LindantePendiente || m is LindanteCancelado,
    ensures
        por_fuentes(cams, ids, rango, lind, m, k) matches Some((r, _)) ==> {
            &&& r.len() == cams.len()
            &&& forall|j: int|
                0 <= j < cams.len() ==> {
                    &&& (#[trigger] r[j]).id == cams[j].id
                    &&& r[j].incidentes == cams[j].incidentes
                    &&& r[j].numlindantes == cams[j].numlindantes + (if m is LindantePendiente {
                        1int
                    } else {
                        -1int
                    }) * veces_lindante(ids, rango, lind, cams[j].id, k)
                }
        },
    decreases k,
{
    if k > 0 {
        lema_fuentes_cuenta(cams, ids, rango, lind, m, (k - 1) as nat);
        lema_fuentes_ids(cams, ids, rango, lind, m, (k - 1) as nat);
        if let Some((r, _)) = por_fuentes(cams, ids, rango, lind, m, k) {
            let previo = por_fuentes(cams, ids, rango, lind, m, (k - 1) as nat)->0;
            let c = previo.0;
            if rango.contains(ids[k - 1]) {
                lema_pasada_elem(c, lind[k - 1], m);
                assert forall|j: int| 0 <= j < cams.len() implies {
                    &&& (#[trigger] r[j]).id == cams[j].id
                    &&& r[j].incidentes == cams[j].incidentes
                    &&& r[j].numlindantes == cams[j].numlindantes + (if m is LindantePendiente {
                        1int
                    } else {
                        -1int
                    }) * veces_lindante(ids, rango, lind, cams[j].id, k)
                } by {
                    assert(c[j].id == cams[j].id);
                    if lind[k - 1].contains(c[j].id) {
                        assert(actualizar(c[j], m) is Some);
                    }
                }
            }
        }
    }
}

/// Agregar un incidente que no estaba y quitar su primera aparición deja la lista como estaba.
proof fn lema_sin_primero_push(s: Seq<i32>, x: i32)
    requires
        !s.contains(x),
    ensures
        sin_primero(s.push(x), x) == s,
    decreases s.len(),
{
    if s.len() == 0 {
        assert(s.push(x).drop_first() =~= s);
    } else {
        assert(s.push(x)[0] == s[0]);
        assert(s.push(x).drop_first() =~= s.drop_first().push(x));
        assert(!s.drop_first().contains(x)) by {
            if s.drop_first().contains(x) {
                let k = choose|k: int| 0 <= k < s.drop_first().len() && s.drop_first()[k] == x;
                assert(s[k + 1] == x);
            }
        }
        lema_sin_primero_push(s.drop_first(), x);
        assert(seq![s[0]] + s.drop_first() =~= s);
    }
}

/// Cancelar un incidente pendiente nuevo, con la misma área y las mismas
/// lindancias, deja cada cámara con los incidentes y el contador de lindancia
/// que tenía antes del incidente.
pub proof fn ley_cancelar_deshace(e: CentralV, inc: i32, rango: Seq<usize>, lind: Seq<Seq<usize>>)
    requires
        lind.len() == e.camaras.len(),
        !e.incidentes.contains((inc, "pendiente"@)),
        !e.incidentes.contains((inc, "cancelado"@)),
        forall|j: int| 0 <= j < e.camaras.len() ==> !(#[trigger] e.camaras[j]).incidentes.contains(inc),
    ensures
        tras_incidente(e, inc, "pendiente"@, rango, lind) matches Some((e1, _)) ==> (tras_incidente(
            e1,
            inc,
            "cancelado"@,
            rango,
            lind,
        ) matches Some((e2, _)) ==> {
            &&& e2.camaras.len() == e.camaras.len()
            &&& forall|j: int|
                0 <= j < e.camaras.len() ==> {
                    &&& (#[trigger] e2.camaras[j]).id == e.camaras[j].id
                    &&& e2.camaras[j].incidentes == e.camaras[j].incidentes
                    &&& e2.camaras[j].numlindantes == e.camaras[j].numlindantes
                }
        }),
{
    reveal_strlit("pendiente");
    reveal_strlit("cancelado");
    reveal_strlit("activo");
    assert("pendiente"@ != "activo"@) by {
        assert("pendiente"@[0] != "activo"@[0]);
    }
    assert("cancelado"@ != "activo"@) by {
        assert("cancelado"@[0] != "activo"@[0]);
    }
    assert("cancelado"@ != "pendiente"@) by {
        assert("cancelado"@[0] != "pendiente"@[0]);
    }
    let ids = ids_de(e.camaras);
    let n = e.camaras.len();
    let mp = Modo::IncidentePendiente(inc);
    let mc = Modo::IncidenteCancelado(inc);
    lema_pasada_elem(e.camaras, rango, mp);
    lema_pasada_ids(e.camaras, rango, mp);
    if let Some((c1, _)) = pasada(e.camaras, rango, mp) {
        lema_fuentes_cuenta(c1, ids, rango, lind, Modo::LindantePendiente, n);
        if let Some((c2, _)) = por_fuentes(c1, ids, rango, lind, Modo::LindantePendiente, n) {
            let e1 = CentralV { camaras: c2, incidentes: e.incidentes.push((inc, "pendiente"@)), id: e.id };
            assert(!e1.incidentes.contains((inc, "cancelado"@))) by {
                if e1.incidentes.contains((inc, "cancelado"@)) {
                    let k = choose|k: int| 0 <= k < e1.incidentes.len() && e1.incidentes[k] == (inc, "cancelado"@);
                    if k < e.incidentes.len() {
                        assert(e.incidentes[k] == e1.incidentes[k]);
                    }
                }
            }
            assert(ids_de(c2) == ids) by {
                assert forall|j: int| 0 <= j < n implies ids_de(c2)[j] == ids[j] by {
                    assert(c2[j].id == c1[j].id);
                    assert(c1[j].id == e.camaras[j].id);
                }
                assert(ids_de(c2).len() == ids.len());
            }
            lema_pasada_elem(c2, rango, mc);
            if let Some((c3, _)) = pasada(c2, rango, mc) {
                assert(ids_de(c3) == ids) by {
                    assert forall|j: int| 0 <= j < n implies ids_de(c3)[j] == ids[j] by {
                        assert(c3[j].id == c2[j].id);
                        assert(c2[j].id == c1[j].id);
                        assert(c1[j].id == e.camaras[j].id);
                    }
                    assert(ids_de(c3).len() == ids.len());
                }
                lema_fuentes_cuenta(c3, ids, rango, lind, Modo::LindanteCancelado, n);
                if let Some((c4, _)) = por_fuentes(c3, ids, rango, lind, Modo::LindanteCancelado, n) {
                    assert forall|j: int| 0 <= j < n implies {
                        &&& (#[trigger] c4[j]).id == e.camaras[j].id
                        &&& c4[j].incidentes == e.camaras[j].incidentes
                        &&& c4[j].numlindantes == e.camaras[j].numlindantes
                    } by {
                        let c = e.camaras[j];
                        assert(c1[j].id == c.id);
                        if rango.contains(c.id) {
                            assert(actualizar(c, mp) is Some);
                            assert(!c.incidentes.contains(inc));
                            assert(c1[j].incidentes == c.incidentes.push(inc));
                            assert(c1[j].numlindantes == c.numlindantes - 1);
                            assert(c2[j].incidentes == c1[j].incidentes);
                            assert(c2[j].id == c.id);
                            assert(c2[j].incidentes.contains(inc)) by {
                                assert(c2[j].incidentes[c.incidentes.len() as int] == inc);
                            }
                            assert(actualizar(c2[j], mc) is Some);
                            lema_sin_primero_push(c.incidentes, inc);
                            assert(c3[j].incidentes == c.incidentes);
                            assert(c3[j].numlindantes == c2[j].numlindantes + 1);
                        } else {
                            assert(c1[j] == c);
                            assert(c2[j].id == c.id);
                            assert(c3[j] == c2[j]);
                        }
                    }
                }
            }
        }
    }
}

/// La cámara está en ahorro de energía justo cuando no tiene incidentes ni
/// lindancias, y su contador no baja de menos la cantidad de sus incidentes.
pub open spec fn coherente(c: CamaraV) -> bool {
    &&& (c.estado == EstadoCamara::AhorroDeEnergia <==> (c.incidentes.len() == 0 && c.numlindantes == 0))
    &&& c.numlindantes + c.incidentes.len() >= 0
}

/// Una cámara libre: en ahorro de energía, sin incidentes y sin lindancias.
pub open spec fn libre(c: CamaraV) -> bool {
    &&& c.estado == EstadoCamara::AhorroDeEnergia
    &&& c.incidentes.len() == 0
    &&& c.numlindantes == 0
}

/// Actualizar por un incidente pendiente, por una lindancia pendiente o por la
/// cancelación de un incidente que la cámara tiene la mantiene coherente.
proof fn lema_coherente_actualizar(c: CamaraV, m: Modo)
    requires
        coherente(c),
        !(m is LindanteCancelado),
        m matches Modo::IncidenteCancelado(inc) ==> c.incidentes.contains(inc),
    ensures
        actualizar(c, m) matches Some((c2, _)) ==> coherente(c2) && c2.id == c.id,
{
    if let Modo::IncidenteCancelado(inc) = m {
        lema_sin_primero_largo(c.incidentes, inc);
    }
}

/// Una pasada que no es de lindancia cancelada, con cámaras coherentes (que
/// tienen el incidente, si se cancela uno), las deja coherentes.
proof fn lema_coherente_pasada(cams: Seq<CamaraV>, ids: Seq<usize>, m: Modo)
    requires
        forall|j: int| 0 <= j < cams.len() ==> coherente(#[trigger] cams[j]),
        !(m is LindanteCancelado),
        m matches Modo::IncidenteCancelado(inc) ==> forall|j: int|
            0 <= j < cams.len() && ids.contains(cams[j].id) ==> (#[trigger] cams[j]).incidentes.contains(inc),
    ensures
        pasada(cams, ids, m) matches Some((r, _)) ==> forall|j: int| 0 <= j < r.len() ==> coherente(#[trigger] r[j]),
{
    lema_pasada_elem(cams, ids, m);
    if let Some((r, _)) = pasada(cams, ids, m) {
        assert forall|j: int| 0 <= j < r.len() implies coherente(#[trigger] r[j]) by {
            if ids.contains(cams[j].id) {
                lema_coherente_actualizar(cams[j], m);
            }
        }
    }
}

/// Las pasadas de lindancia pendiente dejan coherentes a cámaras coherentes.
proof fn lema_coherente_fuentes(
    cams: Seq<CamaraV>,
    ids: Seq<usize>,
    rango: Seq<usize>,
    lind: Seq<Seq<usize>>,
    k: nat,
)
    requires
        forall|j: int| 0 <= j < cams.len() ==> coherente(#[trigger] cams[j]),
    ensures
        por_fuentes(cams, ids, rango, lind, Modo::LindantePendiente, k) matches Some((r, _)) ==> forall|j: int|
            0 <= j < r.len() ==> coherente(#[trigger] r[j]),
    decreases k,
{
    if k > 0 {
        lema_coherente_fuentes(cams, ids, rango, lind, (k - 1) as nat);
        if let Some((c, _)) = por_fuentes(cams, ids, rango, lind, Modo::LindantePendiente, (k - 1) as nat) {
            if rango.contains(ids[k - 1]) {
                lema_coherente_pasada(c, lind[k - 1], Modo::LindantePendiente);
            }
        }
    }
}

/// Contar las fuentes de las que una cámara es lindante no decrece al mirar más fuentes.
proof fn lema_veces_crece(ids: Seq<usize>, rango: Seq<usize>, lind: Seq<Seq<usize>>, id: usize, k: nat, n: nat)
    requires
        k <= n,
    ensures
        0 <= veces_lindante(ids, rango, lind, id, k) <= veces_lindante(ids, rango, lind, id, n),
    decreases n,
{
    if n > k {
        lema_veces_crece(ids, rango, lind, id, k, (n - 1) as nat);
    } else if n > 0 {
        lema_veces_crece(ids, rango, lind, id, 0, (n - 1) as nat);
    }
}

/// Las pasadas de lindancia cancelada sobre cámaras sin incidentes, cada una
/// con tantas lindancias como fuentes de las que es lindante, les restan una
/// por fuente y las pasan a ahorro de energía justo al quedar en cero.
proof fn lema_cancelar_lindantes(
    cams: Seq<CamaraV>,
    ids: Seq<usize>,
    rango: Seq<usize>,
    lind: Seq<Seq<usize>>,
    k: nat,
)
    requires
        ids == ids_de(cams),
        k <= cams.len(),
        forall|j: int|
            0 <= j < cams.len() ==> {
                &&& (#[trigger] cams[j]).incidentes.len() == 0
                &&& cams[j].numlindantes == veces_lindante(ids, rango, lind, cams[j].id, cams.len())
                &&& coherente(cams[j])
            },
    ensures
        por_fuentes(cams, ids, rango, lind, Modo::LindanteCancelado, k) matches Some((r, _)) ==> forall|j: int|
            0 <= j < cams.len() ==> {
                &&& (#[trigger] r[j]).numlindantes == cams[j].numlindantes - veces_lindante(
                    ids,
                    rango,
                    lind,
                    cams[j].id,
                    k,
                )
                &&& coherente(r[j])
            },
    decreases k,
{
    lema_fuentes_cuenta(cams, ids, rango, lind, Modo::LindanteCancelado, k);
    if k > 0 {
        lema_cancelar_lindantes(cams, ids, rango, lind, (k - 1) as nat);
        lema_fuentes_cuenta(cams, ids, rango, lind, Modo::LindanteCancelado, (k - 1) as nat);
        if let Some((r, _)) = por_fuentes(cams, ids, rango, lind, Modo::LindanteCancelado, k) {
            let previo = por_fuentes(cams, ids, rango, lind, Modo::LindanteCancelado, (k - 1) as nat)->0;
            let c = previo.0;
            if rango.contains(ids[k - 1]) {
                lema_pasada_elem(c, lind[k - 1], Modo::LindanteCancelado);
                assert forall|j: int| 0 <= j < cams.len() implies {
                    &&& (#[trigger] r[j]).numlindantes == cams[j].numlindantes - veces_lindante(
                        ids,
                        rango,
                        lind,
                        cams[j].id,
                        k,
                    )
                    &&& coherente(r[j])
                } by {
                    assert(c[j].id == cams[j].id);
                    lema_veces_crece(ids, rango, lind, cams[j].id, k, cams.len());
                    if lind[k - 1].contains(c[j].id) {
                        assert(actualizar(c[j], Modo::LindanteCancelado) is Some);
                    }
                }
            } else {
                assert forall|j: int| 0 <= j < cams.len() implies {
                    &&& (#[trigger] r[j]).numlindantes == cams[j].numlindantes - veces_lindante(
                        ids,
                        rango,
                        lind,
                        cams[j].id,
                        k,
                    )
                    &&& coherente(r[j])
                } by {
                    assert(r[j] == c[j]);
                }
            }
        }
    } else {
        assert forall|j: int| 0 <= j < cams.len() implies {
            &&& (#[trigger] cams[j]).numlindantes == cams[j].numlindantes - veces_lindante(ids, rango, lind, cams[j].id, 0)
            &&& coherente(cams[j])
        } by {}
    }
}

/// Desde cámaras libres, un incidente pendiente nuevo seguido de su
/// cancelación, con la misma área y las mismas lindancias, deja las cámaras
/// como estaban: libres, en ahorro de energía.
pub proof fn ley_pendiente_y_cancelado_libera(e: CentralV, inc: i32, rango: Seq<usize>, lind: Seq<Seq<usize>>)
    requires
        lind.len() == e.camaras.len(),
        !e.incidentes.contains((inc, "pendiente"@)),
        !e.incidentes.contains((inc, "cancelado"@)),
        forall|j: int| 0 <= j < e.camaras.len() ==> libre(#[trigger] e.camaras[j]),
    ensures
        tras_incidente(e, inc, "pendiente"@, rango, lind) matches Some((e1, _)) ==> (tras_incidente(
            e1,
            inc,
            "cancelado"@,
            rango,
            lind,
        ) matches Some((e2, _)) ==> e2.camaras == e.camaras),
{
    reveal_strlit("pendiente");
    reveal_strlit("cancelado");
    reveal_strlit("activo");
    assert("pendiente"@ != "activo"@) by {
        assert("pendiente"@[0] != "activo"@[0]);
    }
    assert("cancelado"@ != "activo"@) by {
        assert("cancelado"@[0] != "activo"@[0]);
    }
    assert("cancelado"@ != "pendiente"@) by {
        assert("cancelado"@[0] != "pendiente"@[0]);
    }
    assert forall|j: int| 0 <= j < e.camaras.len() implies !(#[trigger] e.camaras[j]).incidentes.contains(inc) by {
        if e.camaras[j].incidentes.contains(inc) {
            let k = choose|k: int| 0 <= k < e.camaras[j].incidentes.len() && e.camaras[j].incidentes[k] == inc;
        }
    }
    ley_cancelar_deshace(e, inc, rango, lind);
    let ids = ids_de(e.camaras);
    let n = e.camaras.len();
    let mp = Modo::IncidentePendiente(inc);
    let mc = Modo::IncidenteCancelado(inc);
    assert forall|j: int| 0 <= j < n implies coherente(#[trigger] e.camaras[j]) by {}
    lema_pasada_elem(e.camaras, rango, mp);
    lema_pasada_ids(e.camaras, rango, mp);
    lema_coherente_pasada(e.camaras, rango, mp);
    if let Some((c1, _)) = pasada(e.camaras, rango, mp) {
        lema_fuentes_cuenta(c1, ids, rango, lind, Modo::LindantePendiente, n);
        lema_fuentes_ids(c1, ids, rango, lind, Modo::LindantePendiente, n);
        lema_coherente_fuentes(c1, ids, rango, lind, n);
        if let Some((c2, _)) = por_fuentes(c1, ids, rango, lind, Modo::LindantePendiente, n) {
            let e1 = CentralV { camaras: c2, incidentes: e.incidentes.push((inc, "pendiente"@)), id: e.id };
            assert(!e1.incidentes.contains((inc, "cancelado"@))) by {
                if e1.incidentes.contains((inc, "cancelado"@)) {
                    let k = choose|k: int| 0 <= k < e1.incidentes.len() && e1.incidentes[k] == (inc, "cancelado"@);
                    if k < e.incidentes.len() {
                        assert(e.incidentes[k] == e1.incidentes[k]);
                    }
                }
            }
            assert(ids_de(c2) == ids) by {
                assert forall|j: int| 0 <= j < n implies ids_de(c2)[j] == ids[j] by {
                    assert(c2[j].id == c1[j].id);
                    assert(c1[j].id == e.camaras[j].id);
                }
                assert(ids_de(c2).len() == ids.len());
            }
            assert forall|j: int| 0 <= j < c2.len() && rango.contains(c2[j].id) implies (
            #[trigger] c2[j]).incidentes.contains(inc) by {
                let c = e.camaras[j];
                assert(c1[j].id == c.id);
                assert(actualizar(c, mp) is Some);
                assert(c1[j].incidentes == c.incidentes.push(inc));
                assert(c2[j].incidentes[c.incidentes.len() as int] == inc);
            }
            lema_pasada_elem(c2, rango, mc);
            lema_coherente_pasada(c2, rango, mc);
            if let Some((c3, _)) = pasada(c2, rango, mc) {
                assert(ids_de(c3) == ids) by {
                    assert forall|j: int| 0 <= j < n implies ids_de(c3)[j] == ids[j] by {
                        assert(c3[j].id == c2[j].id);
                        assert(c2[j].id == c1[j].id);
                        assert(c1[j].id == e.camaras[j].id);
                    }
                    assert(ids_de(c3).len() == ids.len());
                }
                assert forall|j: int| 0 <= j < c3.len() implies {
                    &&& (#[trigger] c3[j]).incidentes.len() == 0
                    &&& c3[j].numlindantes == veces_lindante(ids, rango, lind, c3[j].id, c3.len())
                    &&& coherente(c3[j])
                } by {
                    let c = e.camaras[j];
                    assert(c1[j].id == c.id);
                    assert(c2[j].id == c.id);
                    if rango.contains(c.id) {
                        assert(actualizar(c, mp) is Some);
                        assert(c1[j].incidentes == c.incidentes.push(inc));
                        assert(c1[j].numlindantes == c.numlindantes - 1);
                        assert(actualizar(c2[j], mc) is Some);
                        assert(c2[j].incidentes == c1[j].incidentes);
                        lema_sin_primero_push(c.incidentes, inc);
                        assert(c3[j].incidentes == c.incidentes);
                        assert(c3[j].numlindantes == c2[j].numlindantes + 1);
                    } else {
                        assert(c1[j] == c);
                        assert(c3[j] == c2[j]);
                    }
                }
                lema_cancelar_lindantes(c3, ids, rango, lind, n);
                lema_fuentes_cuenta(c3, ids, rango, lind, Modo::LindanteCancelado, n);
                if let Some((c4, _)) = por_fuentes(c3, ids, rango, lind, Modo::LindanteCancelado, n) {
                    assert(c4 =~= e.camaras) by {
                        assert forall|j: int| 0 <= j < n implies c4[j] == e.camaras[j] by {
                            assert(c3[j].id == e.camaras[j].id) by {
                                assert(c3[j].id == c2[j].id);
                                assert(c2[j].id == c1[j].id);
                                assert(c1[j].id == e.camaras[j].id);
                            }
                            assert(c4[j].incidentes =~= e.camaras[j].incidentes);
                        }
                    }
                }
            }
        }
    }
}

/// La central tras procesar, en orden, cada incidente de `ps` (id, área y
/// lindancias de cada cámara) como pendiente y luego como cancelado.
pub open spec fn tras_pendientes_cancelados(e: CentralV, ps: Seq<(i32, Seq<usize>, Seq<Seq<usize>>)>) -> Option<
    CentralV,
>
    decreases ps.len(),
{
    if ps.len() == 0 {
        Some(e)
    } else {
        match tras_incidente(e, ps[0].0, "pendiente"@, ps[0].1, ps[0].2) {
            None => None,
            Some((e1, _)) => match tras_incidente(e1, ps[0].0, "cancelado"@, ps[0].1, ps[0].2) {
                None => None,
                Some((e2, _)) => tras_pendientes_cancelados(e2, ps.drop_first()),
            },
        }
    }
}

/// Los incidentes de `ps` son nuevos para la central y distintos entre sí, y
/// cada uno trae las lindancias de todas sus cámaras.
pub open spec fn incidentes_nuevos(e: CentralV, ps: Seq<(i32, Seq<usize>, Seq<Seq<usize>>)>) -> bool {
    &&& forall|k: int| 0 <= k < ps.len() ==> (#[trigger] ps[k]).2.len() == e.camaras.len()
    &&& forall|k: int|
        0 <= k < ps.len() ==> !e.incidentes.contains(((#[trigger] ps[k]).0, "pendiente"@))
            && !e.incidentes.contains((ps[k].0, "cancelado"@))
    &&& forall|k: int, l: int| 0 <= k < l < ps.len() ==> (#[trigger] ps[k]).0 != (#[trigger] ps[l]).0
}

/// Desde cámaras libres, incidentes nuevos que pasan a pendientes y enseguida
/// se cancelan dejan todas las cámaras como estaban: libres, en ahorro de energía.
pub proof fn ley_incidentes_cancelados_liberan(e: CentralV, ps: Seq<(i32, Seq<usize>, Seq<Seq<usize>>)>)
    requires
        incidentes_nuevos(e, ps),
        forall|j: int| 0 <= j < e.camaras.len() ==> libre(#[trigger] e.camaras[j]),
    ensures
        tras_pendientes_cancelados(e, ps) matches Some(e2) ==> e2.camaras == e.camaras,
    decreases ps.len(),
{
    if ps.len() > 0 {
        let (inc, rango, lind) = ps[0];
        reveal_strlit("pendiente");
        reveal_strlit("cancelado");
        reveal_strlit("activo");
        assert("pendiente"@ != "activo"@) by {
            assert("pendiente"@[0] != "activo"@[0]);
        }
        assert("cancelado"@ != "activo"@) by {
            assert("cancelado"@[0] != "activo"@[0]);
        }
        assert("cancelado"@ != "pendiente"@) by {
            assert("cancelado"@[0] != "pendiente"@[0]);
        }
        ley_pendiente_y_cancelado_libera(e, inc, rango, lind);
        if let Some((e1, _)) = tras_incidente(e, inc, "pendiente"@, rango, lind) {
            assert(e1.incidentes == e.incidentes.push((inc, "pendiente"@)));
            assert(!e1.incidentes.contains((inc, "cancelado"@))) by {
                if e1.incidentes.contains((inc, "cancelado"@)) {
                    let k = choose|k: int| 0 <= k < e1.incidentes.len() && e1.incidentes[k] == (inc, "cancelado"@);
                    if k < e.incidentes.len() {
                        assert(e.incidentes[k] == e1.incidentes[k]);
                    }
                }
            }
            if let Some((e2, _)) = tras_incidente(e1, inc, "cancelado"@, rango, lind) {
                assert(e2.incidentes == e1.incidentes.push((inc, "cancelado"@)));
                let resto = ps.drop_first();
                assert(incidentes_nuevos(e2, resto)) by {
                    assert forall|k: int| 0 <= k < resto.len() implies (#[trigger] resto[k]).2.len() == e2.camaras.len() by {
                        assert(resto[k] == ps[k + 1]);
                    }
                    assert forall|k: int| 0 <= k < resto.len() implies !e2.incidentes.contains(
                        ((#[trigger] resto[k]).0, "pendiente"@),
                    ) && !e2.incidentes.contains((resto[k].0, "cancelado"@)) by {
                        assert(resto[k] == ps[k + 1]);
                        assert(ps[0].0 != ps[k + 1].0);
                        let x = resto[k].0;
                        if e2.incidentes.contains((x, "pendiente"@)) {
                            let i = choose|i: int| 0 <= i < e2.incidentes.len() && e2.incidentes[i] == (x, "pendiente"@);
                            if i < e.incidentes.len() {
                                assert(e.incidentes[i] == e2.incidentes[i]);
                            }
                        }
                        if e2.incidentes.contains((x, "cancelado"@)) {
                            let i = choose|i: int| 0 <= i < e2.incidentes.len() && e2.incidentes[i] == (x, "cancelado"@);
                            if i < e.incidentes.len() {
                                assert(e.incidentes[i] == e2.incidentes[i]);
                            }
                        }
                    }
                    assert forall|k: int, l: int| 0 <= k < l < resto.len() implies (#[trigger] resto[k]).0 != (
                    #[trigger] resto[l]).0 by {
                        assert(resto[k] == ps[k + 1]);
                        assert(resto[l] == ps[l + 1]);
                    }
                }
                ley_incidentes_cancelados_liberan(e2, resto);
            }
        }
    }
}

/// Cuántas veces, sumando sobre los incidentes `ps` (id, área y lindancias de
/// cada cámara), la cámara `id` es lindante de una cámara del área.
pub open spec fn suma_veces(ps: Seq<(i32, Seq<usize>, Seq<Seq<usize>>)>, ids: Seq<usize>, id: usize, n: nat) -> int
    decreases ps.len(),
{
    if ps.len() == 0 {
        0
    } else {
        veces_lindante(ids, ps[0].1, ps[0].2, id, n) + suma_veces(ps.drop_first(), ids, id, n)
    }
}

/// Los incidentes `ps` sin el primero con id `inc`.
pub open spec fn quitar_incidente(ps: Seq<(i32, Seq<usize>, Seq<Seq<usize>>)>, inc: i32) -> Seq<
    (i32, Seq<usize>, Seq<Seq<usize>>),
>
    decreases ps.len(),
{
    if ps.len() == 0 {
        ps
    } else if ps[0].0 == inc {
        ps.drop_first()
    } else {
        seq![ps[0]] + quitar_incidente(ps.drop_first(), inc)
    }
}

/// Los ids de los incidentes `ps` son distintos entre sí.
pub open spec fn ids_distintos(ps: Seq<(i32, Seq<usize>, Seq<Seq<usize>>)>) -> bool {
    forall|a: int, b: int| 0 <= a < b < ps.len() ==> (#[trigger] ps[a]).0 != (#[trigger] ps[b]).0
}

/// La cámara está al día con los incidentes pendientes `ps`: sus incidentes,
/// sin repetir, son los de `ps` en cuya área está; su contador de lindancia
/// más sus incidentes suma las veces que es lindante de una cámara del área
/// de cada uno; y graba justo cuando tiene incidentes o lindancias.
pub open spec fn camara_al_dia(c: CamaraV, ps: Seq<(i32, Seq<usize>, Seq<Seq<usize>>)>, ids: Seq<usize>, n: nat) -> bool {
    &&& c.numlindantes + c.incidentes.len() == suma_veces(ps, ids, c.id, n)
    &&& c.incidentes.no_duplicates()
    &&& forall|i: i32|
        c.incidentes.contains(i) ==> exists|k: int| 0 <= k < ps.len() && (#[trigger] ps[k]).0 == i && ps[k].1.contains(c.id)
    &&& forall|k: int| 0 <= k < ps.len() && (#[trigger] ps[k]).1.contains(c.id) ==> c.incidentes.contains(ps[k].0)
    &&& coherente(c)
}

/// Todas las cámaras, con ids `ids`, están al día con los incidentes pendientes `ps`.
pub open spec fn camaras_al_dia(cams: Seq<CamaraV>, ps: Seq<(i32, Seq<usize>, Seq<Seq<usize>>)>, ids: Seq<usize>) -> bool {
    &&& ids == ids_de(cams)
    &&& forall|j: int| 0 <= j < cams.len() ==> camara_al_dia(#[trigger] cams[j], ps, ids, cams.len())
}

/// Sumar un incidente más al final suma sus veces.
proof fn lema_suma_push(
    ps: Seq<(i32, Seq<usize>, Seq<Seq<usize>>)>,
    p: (i32, Seq<usize>, Seq<Seq<usize>>),
    ids: Seq<usize>,
    id: usize,
    n: nat,
)
    ensures
        suma_veces(ps.push(p), ids, id, n) == suma_veces(ps, ids, id, n) + veces_lindante(ids, p.1, p.2, id, n),
    decreases ps.len(),
{
    if ps.len() == 0 {
        assert(ps.push(p).drop_first() =~= ps);
    } else {
        lema_suma_push(ps.drop_first(), p, ids, id, n);
        assert(ps.push(p).drop_first() =~= ps.drop_first().push(p));
    }
}

/// La suma no es negativa y no es menor que ninguno de sus términos.
proof fn lema_suma_cota(ps: Seq<(i32, Seq<usize>, Seq<Seq<usize>>)>, ids: Seq<usize>, id: usize, n: nat)
    ensures
        suma_veces(ps, ids, id, n) >= 0,
        forall|k: int| 0 <= k < ps.len() ==> suma_veces(ps, ids, id, n) >= veces_lindante(
            ids,
            (#[trigger] ps[k]).1,
            ps[k].2,
            id,
            n,
        ),
    decreases ps.len(),
{
    if ps.len() > 0 {
        lema_suma_cota(ps.drop_first(), ids, id, n);
        lema_veces_crece(ids, ps[0].1, ps[0].2, id, 0, n);
        assert forall|k: int| 0 <= k < ps.len() implies suma_veces(ps, ids, id, n) >= veces_lindante(
            ids,
            (#[trigger] ps[k]).1,
            ps[k].2,
            id,
            n,
        ) by {
            if k > 0 {
                assert(ps[k] == ps.drop_first()[k - 1]);
            }
        }
    }
}

/// Quitar un incidente de ids distintos deja los demás, con ids distintos, y
/// resta sus veces de la suma.
#[verifier::spinoff_prover]
proof fn lema_quitar(
    ps: Seq<(i32, Seq<usize>, Seq<Seq<usize>>)>,
    k: int,
    i: i32,
    ids: Seq<usize>,
    id: usize,
    n: nat,
)
    requires
        ids_distintos(ps),
        0 <= k < ps.len(),
        ps[k].0 == i,
    ensures
        ids_distintos(quitar_incidente(ps, i)),
        forall|q: (i32, Seq<usize>, Seq<Seq<usize>>)|
            #[trigger] quitar_incidente(ps, i).contains(q) <==> (ps.contains(q) && q.0 != i),
        suma_veces(ps, ids, id, n) == suma_veces(quitar_incidente(ps, i), ids, id, n) + veces_lindante(
            ids,
            ps[k].1,
            ps[k].2,
            id,
            n,
        ),
    decreases ps.len(),
{
    let r = ps.drop_first();
    assert(ids_distintos(r)) by {
        assert forall|a: int, b: int| 0 <= a < b < r.len() implies (#[trigger] r[a]).0 != (#[trigger] r[b]).0 by {
            assert(r[a] == ps[a + 1] && r[b] == ps[b + 1]);
        }
    }
    if ps[0].0 == i {
        assert(k == 0) by {
            if k != 0 {
                assert(ps[0].0 != ps[k].0);
            }
        }
        assert forall|q: (i32, Seq<usize>, Seq<Seq<usize>>)|
            quitar_incidente(ps, i).contains(q) <==> (ps.contains(q) && q.0 != i) by {
            if ps.contains(q) && q.0 != i {
                let a = choose|a: int| 0 <= a < ps.len() && ps[a] == q;
                assert(a != 0);
                assert(r[a - 1] == q);
            }
            if r.contains(q) {
                let a = choose|a: int| 0 <= a < r.len() && r[a] == q;
                assert(ps[a + 1] == q);
                assert(ps[0].0 != ps[a + 1].0);
            }
        }
    } else {
        assert(k > 0);
        assert(r[k - 1] == ps[k]);
        lema_quitar(r, k - 1, i, ids, id, n);
        let qr = quitar_incidente(r, i);
        let qs = seq![ps[0]] + qr;
        assert(quitar_incidente(ps, i) == qs);
        assert(qs.drop_first() =~= qr);
        assert(qs[0] == ps[0]);
        assert(ids_distintos(qs)) by {
            assert forall|a: int, b: int| 0 <= a < b < qs.len() implies (#[trigger] qs[a]).0 != (#[trigger] qs[b]).0 by {
                if a > 0 {
                    assert(qs[a] == qr[a - 1] && qs[b] == qr[b - 1]);
                } else {
                    assert(qs[b] == qr[b - 1]);
                    assert(qr.contains(qr[b - 1]));
                    assert(r.contains(qs[b]));
                    let c = choose|c: int| 0 <= c < r.len() && r[c] == qs[b];
                    assert(ps[c + 1] == qs[b]);
                }
            }
        }
        assert forall|q: (i32, Seq<usize>, Seq<Seq<usize>>)| qs.contains(q) <==> (ps.contains(q) && q.0 != i) by {
            if qs.contains(q) {
                let a = choose|a: int| 0 <= a < qs.len() && qs[a] == q;
                if a > 0 {
                    assert(qr[a - 1] == q);
                    assert(qr.contains(q));
                    assert(r.contains(q) && q.0 != i);
                    let c = choose|c: int| 0 <= c < r.len() && r[c] == q;
                    assert(ps[c + 1] == q);
                } else {
                    assert(ps[0] == q);
                }
            }
            if ps.contains(q) && q.0 != i {
                let a = choose|a: int| 0 <= a < ps.len() && ps[a] == q;
                if a > 0 {
                    assert(r[a - 1] == q);
                    assert(r.contains(q));
                    assert(qr.contains(q));
                    let c = choose|c: int| 0 <= c < qr.len() && qr[c] == q;
                    assert(qs[c + 1] == q);
                } else {
                    assert(qs[0] == q);
                }
            }
        }
    }
}

/// Tras un incidente pendiente nuevo, las cámaras al día con los pendientes
/// `ps` quedan al día con `ps` y el nuevo.
#[verifier::spinoff_prover]
proof fn lema_pendiente_al_dia(
    cams: Seq<CamaraV>,
    ps: Seq<(i32, Seq<usize>, Seq<Seq<usize>>)>,
    p: (i32, Seq<usize>, Seq<Seq<usize>>),
)
    requires
        camaras_al_dia(cams, ps, ids_de(cams)),
        p.2.len() == cams.len(),
        forall|k: int| 0 <= k < ps.len() ==> (#[trigger] ps[k]).0 != p.0,
    ensures
        pasada(cams, p.1, Modo::IncidentePendiente(p.0)) matches Some((c1, _)) ==> (por_fuentes(
            c1,
            ids_de(cams),
            p.1,
            p.2,
            Modo::LindantePendiente,
            cams.len(),
        ) matches Some((c2, _)) ==> camaras_al_dia(c2, ps.push(p), ids_de(cams))),
{
    let ids = ids_de(cams);
    let n = cams.len();
    let mp = Modo::IncidentePendiente(p.0);
    let nps = ps.push(p);
    assert forall|j: int| 0 <= j < n implies coherente(#[trigger] cams[j]) by {
        assert(camara_al_dia(cams[j], ps, ids, n));
    }
    lema_pasada_elem(cams, p.1, mp);
    lema_pasada_ids(cams, p.1, mp);
    lema_coherente_pasada(cams, p.1, mp);
    if let Some((c1, _)) = pasada(cams, p.1, mp) {
        lema_fuentes_cuenta(c1, ids, p.1, p.2, Modo::LindantePendiente, n);
        lema_fuentes_ids(c1, ids, p.1, p.2, Modo::LindantePendiente, n);
        lema_coherente_fuentes(c1, ids, p.1, p.2, n);
        if let Some((c2, _)) = por_fuentes(c1, ids, p.1, p.2, Modo::LindantePendiente, n) {
            assert forall|j: int| 0 <= j < c2.len() implies camara_al_dia(#[trigger] c2[j], nps, ids, c2.len()) by {
                let c = cams[j];
                assert(camara_al_dia(c, ps, ids, n));
                assert(c1[j].id == c.id);
                assert(c2[j].id == c.id);
                lema_suma_push(ps, p, ids, c.id, n);
                if p.1.contains(c.id) {
                    assert(!c.incidentes.contains(p.0)) by {
                        if c.incidentes.contains(p.0) {
                            let k = choose|k: int| 0 <= k < ps.len() && (#[trigger] ps[k]).0 == p.0 && ps[k].1.contains(c.id);
                        }
                    }
                    assert(actualizar(c, mp) is Some);
                    assert(c1[j].incidentes == c.incidentes.push(p.0));
                    assert(c1[j].numlindantes == c.numlindantes - 1);
                    let ni = c.incidentes.push(p.0);
                    assert(c2[j].incidentes == ni);
                    assert(ni.no_duplicates()) by {
                        assert forall|a: int, b: int| 0 <= a < ni.len() && 0 <= b < ni.len() && a != b implies ni[a] != ni[b] by {
                            if a < c.incidentes.len() && b < c.incidentes.len() {
                                assert(ni[a] == c.incidentes[a] && ni[b] == c.incidentes[b]);
                            } else if a < c.incidentes.len() {
                                assert(ni[a] == c.incidentes[a]);
                                assert(c.incidentes.contains(ni[a]));
                            } else if b < c.incidentes.len() {
                                assert(ni[b] == c.incidentes[b]);
                                assert(c.incidentes.contains(ni[b]));
                            }
                        }
                    }
                    assert forall|i: i32| ni.contains(i) implies exists|k: int|
                        0 <= k < nps.len() && (#[trigger] nps[k]).0 == i && nps[k].1.contains(c.id) by {
                        let a = choose|a: int| 0 <= a < ni.len() && ni[a] == i;
                        if a < c.incidentes.len() {
                            assert(c.incidentes[a] == i);
                            assert(c.incidentes.contains(i));
                            let k = choose|k: int| 0 <= k < ps.len() && (#[trigger] ps[k]).0 == i && ps[k].1.contains(c.id);
                            assert(nps[k] == ps[k]);
                        } else {
                            assert(nps[ps.len() as int] == p);
                        }
                    }
                    assert forall|k: int| 0 <= k < nps.len() && (#[trigger] nps[k]).1.contains(c.id) implies ni.contains(
                        nps[k].0,
                    ) by {
                        if k < ps.len() {
                            assert(nps[k] == ps[k]);
                            assert(c.incidentes.contains(ps[k].0));
                            let a = choose|a: int| 0 <= a < c.incidentes.len() && c.incidentes[a] == ps[k].0;
                            assert(ni[a] == ps[k].0);
                        } else {
                            assert(nps[k] == p);
                            assert(ni[c.incidentes.len() as int] == p.0);
                        }
                    }
                } else {
                    assert(c1[j] == c);
                    assert(c2[j].incidentes == c.incidentes);
                    assert forall|i: i32| c.incidentes.contains(i) implies exists|k: int|
                        0 <= k < nps.len() && (#[trigger] nps[k]).0 == i && nps[k].1.contains(c.id) by {
                        let k = choose|k: int| 0 <= k < ps.len() && (#[trigger] ps[k]).0 == i && ps[k].1.contains(c.id);
                        assert(nps[k] == ps[k]);
                    }
                    assert forall|k: int| 0 <= k < nps.len() && (#[trigger] nps[k]).1.contains(c.id) implies c.incidentes.contains(
                        nps[k].0,
                    ) by {
                        if k < ps.len() {
                            assert(nps[k] == ps[k]);
                        }
                    }
                }
            }
        }
    }
}

/// Quitar la única aparición de `x` de una lista sin repetidos deja una lista
/// sin repetidos con los demás elementos.
#[verifier::spinoff_prover]
proof fn lema_sin_primero_unico(s: Seq<i32>, x: i32)
    requires
        s.no_duplicates(),
        s.contains(x),
    ensures
        sin_primero(s, x).no_duplicates(),
        forall|y: i32| sin_primero(s, x).contains(y) <==> (s.contains(y) && y != x),
    decreases s.len(),
{
    let r = s.drop_first();
    assert(r.no_duplicates()) by {
        assert forall|a: int, b: int| 0 <= a < r.len() && 0 <= b < r.len() && a != b implies r[a] != r[b] by {
            assert(r[a] == s[a + 1] && r[b] == s[b + 1]);
        }
    }
    if s[0] == x {
        assert(!r.contains(x)) by {
            if r.contains(x) {
                let a = choose|a: int| 0 <= a < r.len() && r[a] == x;
                assert(s[a + 1] == s[0]);
            }
        }
        assert forall|y: i32| r.contains(y) <==> (s.contains(y) && y != x) by {
            if r.contains(y) {
                let a = choose|a: int| 0 <= a < r.len() && r[a] == y;
                assert(s[a + 1] == y);
            }
            if s.contains(y) && y != x {
                let a = choose|a: int| 0 <= a < s.len() && s[a] == y;
                assert(a != 0);
                assert(r[a - 1] == y);
            }
        }
    } else {
        assert(r.contains(x)) by {
            let a = choose|a: int| 0 <= a < s.len() && s[a] == x;
            assert(r[a - 1] == x);
        }
        lema_sin_primero_unico(r, x);
        let q = sin_primero(r, x);
        let t = seq![s[0]] + q;
        assert(sin_primero(s, x) == t);
        assert(!q.contains(s[0])) by {
            if q.contains(s[0]) {
                assert(r.contains(s[0]));
                let a = choose|a: int| 0 <= a < r.len() && r[a] == s[0];
                assert(s[a + 1] == s[0]);
            }
        }
        assert(t.no_duplicates()) by {
            assert forall|a: int, b: int| 0 <= a < t.len() && 0 <= b < t.len() && a != b implies t[a] != t[b] by {
                if a > 0 && b > 0 {
                    assert(t[a] == q[a - 1] && t[b] == q[b - 1]);
                } else if a == 0 {
                    assert(t[b] == q[b - 1]);
                    assert(q.contains(t[b]));
                } else {
                    assert(t[a] == q[a - 1]);
                    assert(q.contains(t[a]));
                }
            }
        }
        assert forall|y: i32| t.contains(y) <==> (s.contains(y) && y != x) by {
            if t.contains(y) {
                let a = choose|a: int| 0 <= a < t.len() && t[a] == y;
                if a > 0 {
                    assert(q[a - 1] == y);
                    assert(q.contains(y));
                    assert(r.contains(y) && y != x);
                    let c = choose|c: int| 0 <= c < r.len() && r[c] == y;
                    assert(s[c + 1] == y);
                } else {
                    assert(s[0] == y);
                }
            }
            if s.contains(y) && y != x {
                let a = choose|a: int| 0 <= a < s.len() && s[a] == y;
                if a > 0 {
                    assert(r[a - 1] == y);
                    assert(r.contains(y));
                    assert(q.contains(y));
                    let c = choose|c: int| 0 <= c < q.len() && q[c] == y;
                    assert(t[c + 1] == y);
                } else {
                    assert(t[0] == y);
                }
            }
        }
    }
}

/// Las pasadas de lindancia cancelada, sobre cámaras cuyo estado es coherente
/// y que, sin incidentes, tienen al menos tantas lindancias como fuentes de
/// las que son lindantes, mantienen el estado coherente y esa cota sobre lo
/// que falta restar.
proof fn lema_cancelar_lindantes_cota(
    cams: Seq<CamaraV>,
    ids: Seq<usize>,
    rango: Seq<usize>,
    lind: Seq<Seq<usize>>,
    k: nat,
)
    requires
        ids == ids_de(cams),
        k <= cams.len(),
        forall|j: int|
            0 <= j < cams.len() ==> {
                &&& ((#[trigger] cams[j]).estado == EstadoCamara::AhorroDeEnergia <==> (cams[j].incidentes.len() == 0
                    && cams[j].numlindantes == 0))
                &&& cams[j].incidentes.len() == 0 ==> cams[j].numlindantes >= veces_lindante(
                    ids,
                    rango,
                    lind,
                    cams[j].id,
                    cams.len(),
                )
            },
    ensures
        por_fuentes(cams, ids, rango, lind, Modo::LindanteCancelado, k) matches Some((r, _)) ==> forall|j: int|
            0 <= j < cams.len() ==> {
                &&& ((#[trigger] r[j]).estado == EstadoCamara::AhorroDeEnergia <==> (r[j].incidentes.len() == 0
                    && r[j].numlindantes == 0))
                &&& r[j].incidentes.len() == 0 ==> r[j].numlindantes >= veces_lindante(
                    ids,
                    rango,
                    lind,
                    cams[j].id,
                    cams.len(),
                ) - veces_lindante(ids, rango, lind, cams[j].id, k)
            },
    decreases k,
{
    lema_fuentes_cuenta(cams, ids, rango, lind, Modo::LindanteCancelado, k);
    if k > 0 {
        lema_cancelar_lindantes_cota(cams, ids, rango, lind, (k - 1) as nat);
        lema_fuentes_cuenta(cams, ids, rango, lind, Modo::LindanteCancelado, (k - 1) as nat);
        if let Some((r, _)) = por_fuentes(cams, ids, rango, lind, Modo::LindanteCancelado, k) {
            let previo = por_fuentes(cams, ids, rango, lind, Modo::LindanteCancelado, (k - 1) as nat)->0;
            let c = previo.0;
            if rango.contains(ids[k - 1]) {
                lema_pasada_elem(c, lind[k - 1], Modo::LindanteCancelado);
                assert forall|j: int| 0 <= j < cams.len() implies {
                    &&& ((#[trigger] r[j]).estado == EstadoCamara::AhorroDeEnergia <==> (r[j].incidentes.len() == 0
                        && r[j].numlindantes == 0))
                    &&& r[j].incidentes.len() == 0 ==> r[j].numlindantes >= veces_lindante(
                        ids,
                        rango,
                        lind,
                        cams[j].id,
                        cams.len(),
                    ) - veces_lindante(ids, rango, lind, cams[j].id, k)
                } by {
                    assert(c[j].id == cams[j].id);
                    lema_veces_crece(ids, rango, lind, cams[j].id, k, cams.len());
                    if lind[k - 1].contains(c[j].id) {
                        assert(actualizar(c[j], Modo::LindanteCancelado) is Some);
                    }
                }
            } else {
                assert forall|j: int| 0 <= j < cams.len() implies {
                    &&& ((#[trigger] r[j]).estado == EstadoCamara::AhorroDeEnergia <==> (r[j].incidentes.len() == 0
                        && r[j].numlindantes == 0))
                    &&& r[j].incidentes.len() == 0 ==> r[j].numlindantes >= veces_lindante(
                        ids,
                        rango,
                        lind,
                        cams[j].id,
                        cams.len(),
                    ) - veces_lindante(ids, rango, lind, cams[j].id, k)
                } by {
                    assert(r[j] == c[j]);
                }
            }
        }
    }
}

/// Tras cancelar el incidente pendiente `ps[kc]`, las cámaras al día con los
/// pendientes `ps` quedan al día con los demás.
#[verifier::spinoff_prover]
proof fn lema_cancelado_al_dia(cams: Seq<CamaraV>, ps: Seq<(i32, Seq<usize>, Seq<Seq<usize>>)>, kc: int)
    requires
        camaras_al_dia(cams, ps, ids_de(cams)),
        ids_distintos(ps),
        0 <= kc < ps.len(),
        ps[kc].2.len() == cams.len(),
    ensures
        pasada(cams, ps[kc].1, Modo::IncidenteCancelado(ps[kc].0)) matches Some((c3, _)) ==> (por_fuentes(
            c3,
            ids_de(cams),
            ps[kc].1,
            ps[kc].2,
            Modo::LindanteCancelado,
            cams.len(),
        ) matches Some((c4, _)) ==> camaras_al_dia(c4, quitar_incidente(ps, ps[kc].0), ids_de(cams))),
{
    let ids = ids_de(cams);
    let n = cams.len();
    let inc = ps[kc].0;
    let rango = ps[kc].1;
    let lind = ps[kc].2;
    let mc = Modo::IncidenteCancelado(inc);
    let nps = quitar_incidente(ps, inc);
    assert forall|j: int| 0 <= j < n implies coherente(#[trigger] cams[j]) by {
        assert(camara_al_dia(cams[j], ps, ids, n));
    }
    assert forall|j: int| 0 <= j < n && rango.contains(cams[j].id) implies (#[trigger] cams[j]).incidentes.contains(inc) by {
        assert(camara_al_dia(cams[j], ps, ids, n));
        assert(ps[kc].1.contains(cams[j].id));
    }
    lema_pasada_elem(cams, rango, mc);
    lema_pasada_ids(cams, rango, mc);
    lema_coherente_pasada(cams, rango, mc);
    if let Some((c3, _)) = pasada(cams, rango, mc) {
        assert forall|j: int| 0 <= j < n implies {
            &&& (#[trigger] c3[j]).id == cams[j].id
            &&& c3[j].numlindantes + c3[j].incidentes.len() == cams[j].numlindantes + cams[j].incidentes.len()
            &&& rango.contains(cams[j].id) ==> c3[j].incidentes == sin_primero(cams[j].incidentes, inc)
            &&& !rango.contains(cams[j].id) ==> c3[j] == cams[j]
        } by {
            let c = cams[j];
            if rango.contains(c.id) {
                assert(actualizar(c, mc) is Some);
                lema_sin_primero_largo(c.incidentes, inc);
            }
        }
        assert(ids_de(c3) == ids) by {
            assert forall|j: int| 0 <= j < n implies ids_de(c3)[j] == ids[j] by {
                assert(c3[j].id == cams[j].id);
            }
            assert(ids_de(c3).len() == ids.len());
        }
        assert forall|j: int| 0 <= j < n implies {
            &&& ((#[trigger] c3[j]).estado == EstadoCamara::AhorroDeEnergia <==> (c3[j].incidentes.len() == 0
                && c3[j].numlindantes == 0))
            &&& c3[j].incidentes.len() == 0 ==> c3[j].numlindantes >= veces_lindante(ids, rango, lind, c3[j].id, n)
        } by {
            assert(coherente(c3[j]));
            assert(camara_al_dia(cams[j], ps, ids, n));
            lema_suma_cota(ps, ids, cams[j].id, n);
            assert(ps[kc].1 == rango && ps[kc].2 == lind);
        }
        lema_cancelar_lindantes_cota(c3, ids, rango, lind, n);
        lema_fuentes_cuenta(c3, ids, rango, lind, Modo::LindanteCancelado, n);
        lema_fuentes_ids(c3, ids, rango, lind, Modo::LindanteCancelado, n);
        if let Some((c4, _)) = por_fuentes(c3, ids, rango, lind, Modo::LindanteCancelado, n) {
            assert forall|j: int| 0 <= j < c4.len() implies camara_al_dia(#[trigger] c4[j], nps, ids, c4.len()) by {
                let c = cams[j];
                assert(camara_al_dia(c, ps, ids, n));
                assert(c4[j].id == c.id);
                assert(c4[j].incidentes == c3[j].incidentes);
                assert(c3[j].id == c.id);
                assert(c3[j].numlindantes + c3[j].incidentes.len() == c.numlindantes + c.incidentes.len());
                assert(c4[j].numlindantes == c3[j].numlindantes - veces_lindante(ids, rango, lind, c3[j].id, n));
                assert(ps[kc].1 == rango && ps[kc].2 == lind && ps[kc].0 == inc);
                lema_cancelado_camara(c, c4[j], ps, kc, ids, n);
            }
        }
    }
}

/// Una cámara al día con los pendientes `ps` que, al cancelar `ps[kc]`, pierde
/// ese incidente si está en su área y las veces que es lindante de su área,
/// con el estado coherente, queda al día con los demás pendientes.
#[verifier::spinoff_prover]
proof fn lema_cancelado_camara(
    c: CamaraV,
    c4: CamaraV,
    ps: Seq<(i32, Seq<usize>, Seq<Seq<usize>>)>,
    kc: int,
    ids: Seq<usize>,
    n: nat,
)
    requires
        camara_al_dia(c, ps, ids, n),
        ids_distintos(ps),
        0 <= kc < ps.len(),
        c4.id == c.id,
        c4.incidentes == (if ps[kc].1.contains(c.id) {
            sin_primero(c.incidentes, ps[kc].0)
        } else {
            c.incidentes
        }),
        c4.numlindantes + c4.incidentes.len() == c.numlindantes + c.incidentes.len() - veces_lindante(
            ids,
            ps[kc].1,
            ps[kc].2,
            c.id,
            n,
        ),
        c4.estado == EstadoCamara::AhorroDeEnergia <==> (c4.incidentes.len() == 0 && c4.numlindantes == 0),
    ensures
        camara_al_dia(c4, quitar_incidente(ps, ps[kc].0), ids, n),
{
    let inc = ps[kc].0;
    let rango = ps[kc].1;
    let nps = quitar_incidente(ps, inc);
    lema_quitar(ps, kc, inc, ids, c.id, n);
    lema_suma_cota(nps, ids, c.id, n);
    if rango.contains(c.id) {
        assert(c.incidentes.contains(inc));
        lema_sin_primero_unico(c.incidentes, inc);
    }
    assert forall|y: i32| #[trigger] c4.incidentes.contains(y) implies c.incidentes.contains(y) && (rango.contains(
        c.id,
    ) ==> y != inc) by {}
    assert forall|k: int| 0 <= k < nps.len() && (#[trigger] nps[k]).1.contains(c.id) implies c4.incidentes.contains(
        nps[k].0,
    ) by {
        let q = nps[k];
        assert(nps.contains(q));
        assert(ps.contains(q) && q.0 != inc);
        let a = choose|a: int| 0 <= a < ps.len() && ps[a] == q;
        assert(ps[a].1.contains(c.id));
        assert(c.incidentes.contains(ps[a].0));
    }
    assert forall|i: i32| c4.incidentes.contains(i) implies exists|k: int|
        0 <= k < nps.len() && (#[trigger] nps[k]).0 == i && nps[k].1.contains(c.id) by {
        assert(c.incidentes.contains(i));
        let a = choose|a: int| 0 <= a < ps.len() && (#[trigger] ps[a]).0 == i && ps[a].1.contains(c.id);
        assert(i != inc) by {
            if i == inc {
                if a != kc {
                    if a < kc {
                        assert(ps[a].0 != ps[kc].0);
                    } else {
                        assert(ps[kc].0 != ps[a].0);
                    }
                }
            }
        }
        let q = ps[a];
        assert(ps.contains(q));
        assert(nps.contains(q));
        let b = choose|b: int| 0 <= b < nps.len() && nps[b] == q;
        assert(nps[b].0 == i && nps[b].1.contains(c.id));
    }
}

/// El estado con que un evento llega a la central: pendiente o cancelado.
pub open spec fn estado_evento(pendiente: bool) -> Seq<char> {
    if pendiente {
        "pendiente"@
    } else {
        "cancelado"@
    }
}

/// La central tras procesar, en orden, cada evento de `evs`: el id del
/// incidente, si pasa a pendiente (si no, se cancela), su área y las
/// lindancias de cada cámara; `None` si algún contador se sale de un `i32`.
pub open spec fn tras_eventos(e: CentralV, evs: Seq<(i32, bool, Seq<usize>, Seq<Seq<usize>>)>) -> Option<CentralV>
    decreases evs.len(),
{
    if evs.len() == 0 {
        Some(e)
    } else {
        match tras_eventos(e, evs.drop_last()) {
            None => None,
            Some(e1) => {
                let ev = evs.last();
                match tras_incidente(e1, ev.0, estado_evento(ev.1), ev.2, ev.3) {
                    None => None,
                    Some((e2, _)) => Some(e2),
                }
            },
        }
    }
}

/// Los incidentes que quedan pendientes tras los eventos `evs` (los que
/// pasaron a pendientes y no se cancelaron), en el orden en que llegaron, con
/// su área y sus lindancias.
pub open spec fn vivos(evs: Seq<(i32, bool, Seq<usize>, Seq<Seq<usize>>)>) -> Seq<(i32, Seq<usize>, Seq<Seq<usize>>)>
    decreases evs.len(),
{
    if evs.len() == 0 {
        Seq::empty()
    } else {
        let ev = evs.last();
        if ev.1 {
            vivos(evs.drop_last()).push((ev.0, ev.2, ev.3))
        } else {
            quitar_incidente(vivos(evs.drop_last()), ev.0)
        }
    }
}

/// Algún evento de `evs` cancela el incidente `inc`.
pub open spec fn cancelado_en(evs: Seq<(i32, bool, Seq<usize>, Seq<Seq<usize>>)>, inc: i32) -> bool {
    exists|u: int| 0 <= u < evs.len() && !(#[trigger] evs[u]).1 && evs[u].0 == inc
}

/// Eventos que la central puede recibir desde `e`: cada uno trae las
/// lindancias de todas sus cámaras; los pendientes son incidentes nuevos para
/// la central y distintos entre sí; cada cancelación es de un incidente que
/// antes pasó a pendiente, con la misma área y las mismas lindancias, y no se
/// cancela dos veces.
pub open spec fn eventos_validos(e: CentralV, evs: Seq<(i32, bool, Seq<usize>, Seq<Seq<usize>>)>) -> bool {
    &&& forall|t: int| 0 <= t < evs.len() ==> (#[trigger] evs[t]).3.len() == e.camaras.len()
    &&& forall|t: int|
        0 <= t < evs.len() && (#[trigger] evs[t]).1 ==> !e.incidentes.contains((evs[t].0, "pendiente"@))
            && !e.incidentes.contains((evs[t].0, "cancelado"@))
    &&& forall|t: int, u: int|
        0 <= t < u < evs.len() && (#[trigger] evs[t]).1 && (#[trigger] evs[u]).1 ==> evs[t].0 != evs[u].0
    &&& forall|u: int|
        0 <= u < evs.len() && !(#[trigger] evs[u]).1 ==> exists|t: int|
            0 <= t < u && (#[trigger] evs[t]).1 && evs[t].0 == evs[u].0 && evs[t].2 == evs[u].2 && evs[t].3 == evs[u].3
    &&& forall|t: int, u: int|
        0 <= t < u < evs.len() && !(#[trigger] evs[t]).1 && !(#[trigger] evs[u]).1 ==> evs[t].0 != evs[u].0
}

/// Los eventos sin el último siguen siendo válidos.
proof fn lema_validos_prefijo(e: CentralV, evs: Seq<(i32, bool, Seq<usize>, Seq<Seq<usize>>)>)
    requires
        eventos_validos(e, evs),
        evs.len() > 0,
    ensures
        eventos_validos(e, evs.drop_last()),
{
    let p = evs.drop_last();
    assert forall|t: int| 0 <= t < p.len() implies (#[trigger] p[t]).3.len() == e.camaras.len() by {
        assert(p[t] == evs[t]);
    }
    assert forall|t: int| 0 <= t < p.len() && (#[trigger] p[t]).1 implies !e.incidentes.contains((p[t].0, "pendiente"@))
        && !e.incidentes.contains((p[t].0, "cancelado"@)) by {
        assert(p[t] == evs[t]);
    }
    assert forall|t: int, u: int| 0 <= t < u < p.len() && (#[trigger] p[t]).1 && (#[trigger] p[u]).1 implies p[t].0
        != p[u].0 by {
        assert(p[t] == evs[t] && p[u] == evs[u]);
    }
    assert forall|u: int| 0 <= u < p.len() && !(#[trigger] p[u]).1 implies exists|t: int|
        0 <= t < u && (#[trigger] p[t]).1 && p[t].0 == p[u].0 && p[t].2 == p[u].2 && p[t].3 == p[u].3 by {
        assert(p[u] == evs[u]);
        let t = choose|t: int|
            0 <= t < u && (#[trigger] evs[t]).1 && evs[t].0 == evs[u].0 && evs[t].2 == evs[u].2 && evs[t].3 == evs[u].3;
        assert(p[t] == evs[t]);
    }
    assert forall|t: int, u: int| 0 <= t < u < p.len() && !(#[trigger] p[t]).1 && !(#[trigger] p[u]).1 implies p[t].0
        != p[u].0 by {
        assert(p[t] == evs[t] && p[u] == evs[u]);
    }
}

/// Los pendientes que quedan tras eventos válidos tienen ids distintos; cada
/// uno viene de un evento pendiente que no se canceló; y todo evento
/// pendiente que no se canceló queda entre ellos.
#[verifier::spinoff_prover]
proof fn lema_vivos(e: CentralV, evs: Seq<(i32, bool, Seq<usize>, Seq<Seq<usize>>)>)
    requires
        eventos_validos(e, evs),
    ensures
        ids_distintos(vivos(evs)),
        forall|k: int|
            0 <= k < vivos(evs).len() ==> exists|t: int|
                0 <= t < evs.len() && (#[trigger] evs[t]).1 && (evs[t].0, evs[t].2, evs[t].3) == #[trigger] vivos(
                    evs,
                )[k],
        forall|k: int| 0 <= k < vivos(evs).len() ==> !cancelado_en(evs, (#[trigger] vivos(evs)[k]).0),
        forall|t: int|
            0 <= t < evs.len() && (#[trigger] evs[t]).1 && !cancelado_en(evs, evs[t].0) ==> vivos(evs).contains(
                (evs[t].0, evs[t].2, evs[t].3),
            ),
    decreases evs.len(),
{
    if evs.len() > 0 {
        let p = evs.drop_last();
        let n = evs.len() - 1;
        let ev = evs.last();
        lema_validos_prefijo(e, evs);
        lema_vivos(e, p);
        let vp = vivos(p);
        let v = vivos(evs);
        assert forall|t: int| 0 <= t < p.len() implies p[t] == evs[t] by {}
        assert forall|i: i32| cancelado_en(p, i) implies cancelado_en(evs, i) by {
            {
                let u = choose|u: int| 0 <= u < p.len() && !(#[trigger] p[u]).1 && p[u].0 == i;
                assert(evs[u] == p[u]);
            }
        }
        if ev.1 {
            assert(v == vp.push((ev.0, ev.2, ev.3)));
            // ningún pendiente anterior tiene el id del nuevo
            assert forall|k: int| 0 <= k < vp.len() implies (#[trigger] vp[k]).0 != ev.0 by {
                let t = choose|t: int| 0 <= t < p.len() && (#[trigger] p[t]).1 && (p[t].0, p[t].2, p[t].3) == #[trigger] vp[k];
                assert(evs[t] == p[t]);
                assert(evs[n] == ev);
            }
            assert(ids_distintos(v)) by {
                assert forall|a: int, b: int| 0 <= a < b < v.len() implies (#[trigger] v[a]).0 != (#[trigger] v[b]).0 by {
                    if b < vp.len() {
                        assert(v[a] == vp[a] && v[b] == vp[b]);
                    } else {
                        assert(v[a] == vp[a]);
                    }
                }
            }
            assert(!cancelado_en(evs, ev.0)) by {
                if cancelado_en(evs, ev.0) {
                    let u = choose|u: int| 0 <= u < evs.len() && !(#[trigger] evs[u]).1 && evs[u].0 == ev.0;
                    assert(u < n);
                    let t = choose|t: int|
                        0 <= t < u && (#[trigger] evs[t]).1 && evs[t].0 == evs[u].0 && evs[t].2 == evs[u].2 && evs[t].3
                            == evs[u].3;
                    assert(evs[n] == ev);
                }
            }
            assert forall|i: i32| i != ev.0 && cancelado_en(evs, i) implies cancelado_en(p, i) by {
                let u = choose|u: int| 0 <= u < evs.len() && !(#[trigger] evs[u]).1 && evs[u].0 == i;
                assert(u < n);
                assert(p[u] == evs[u]);
            }
            assert forall|k: int|
                0 <= k < v.len() implies exists|t: int|
                    0 <= t < evs.len() && (#[trigger] evs[t]).1 && (evs[t].0, evs[t].2, evs[t].3) == #[trigger] v[k] by {
                if k < vp.len() {
                    assert(v[k] == vp[k]);
                    let t = choose|t: int| 0 <= t < p.len() && (#[trigger] p[t]).1 && (p[t].0, p[t].2, p[t].3) == #[trigger] vp[k];
                    assert(evs[t] == p[t]);
                } else {
                    assert(evs[n] == ev);
                }
            }
            assert forall|k: int| 0 <= k < v.len() implies !cancelado_en(evs, (#[trigger] v[k]).0) by {
                if k < vp.len() {
                    assert(v[k] == vp[k]);
                    assert(!cancelado_en(p, vp[k].0));
                    assert(vp[k].0 != ev.0);
                }
            }
            assert forall|t: int|
                0 <= t < evs.len() && (#[trigger] evs[t]).1 && !cancelado_en(evs, evs[t].0) implies v.contains(
                    (evs[t].0, evs[t].2, evs[t].3),
                ) by {
                if t < n {
                    assert(p[t] == evs[t]);
                    assert(!cancelado_en(p, p[t].0));
                    assert(vp.contains((p[t].0, p[t].2, p[t].3)));
                    let k = choose|k: int| 0 <= k < vp.len() && vp[k] == (p[t].0, p[t].2, p[t].3);
                    assert(v[k] == vp[k]);
                } else {
                    assert(v[vp.len() as int] == (ev.0, ev.2, ev.3));
                }
            }
        } else {
            let t0 = choose|t: int|
                0 <= t < n && (#[trigger] evs[t]).1 && evs[t].0 == evs[n].0 && evs[t].2 == evs[n].2 && evs[t].3 == evs[n].3;
            assert(evs[n] == ev);
            assert(p[t0] == evs[t0]);
            // el incidente que se cancela está pendiente
            assert(!cancelado_en(p, ev.0)) by {
                if cancelado_en(p, ev.0) {
                    let u = choose|u: int| 0 <= u < p.len() && !(#[trigger] p[u]).1 && p[u].0 == ev.0;
                    assert(evs[u] == p[u]);
                }
            }
            assert(vp.contains((ev.0, ev.2, ev.3)));
            let kc = choose|k: int| 0 <= k < vp.len() && vp[k] == (ev.0, ev.2, ev.3);
            assert(vp[kc].0 == ev.0);
            assert(v == quitar_incidente(vp, vp[kc].0));
            lema_quitar(vp, kc, ev.0, Seq::empty(), 0, 0);
            assert forall|k: int|
                0 <= k < v.len() implies exists|t: int|
                    0 <= t < evs.len() && (#[trigger] evs[t]).1 && (evs[t].0, evs[t].2, evs[t].3) == #[trigger] v[k] by {
                assert(v.contains(v[k]));
                assert(vp.contains(v[k]));
                let a = choose|a: int| 0 <= a < vp.len() && vp[a] == v[k];
                let t = choose|t: int| 0 <= t < p.len() && (#[trigger] p[t]).1 && (p[t].0, p[t].2, p[t].3) == #[trigger] vp[a];
                assert(evs[t] == p[t]);
            }
            assert forall|k: int| 0 <= k < v.len() implies !cancelado_en(evs, (#[trigger] v[k]).0) by {
                assert(v.contains(v[k]));
                assert(vp.contains(v[k]) && v[k].0 != ev.0);
                let a = choose|a: int| 0 <= a < vp.len() && vp[a] == v[k];
                assert(!cancelado_en(p, vp[a].0));
                if cancelado_en(evs, v[k].0) {
                    let u = choose|u: int| 0 <= u < evs.len() && !(#[trigger] evs[u]).1 && evs[u].0 == v[k].0;
                    assert(u < n);
                    assert(p[u] == evs[u]);
                }
            }
            assert forall|t: int|
                0 <= t < evs.len() && (#[trigger] evs[t]).1 && !cancelado_en(evs, evs[t].0) implies v.contains(
                    (evs[t].0, evs[t].2, evs[t].3),
                ) by {
                assert(t < n);
                assert(p[t] == evs[t]);
                assert(evs[t].0 != ev.0);
                assert(!cancelado_en(p, p[t].0)) by {
                    if cancelado_en(p, p[t].0) {
                        let u = choose|u: int| 0 <= u < p.len() && !(#[trigger] p[u]).1 && p[u].0 == p[t].0;
                        assert(evs[u] == p[u]);
                    }
                }
                assert(vp.contains((p[t].0, p[t].2, p[t].3)));
            }
        }
    }
}

/// Lo que la central registra de cada evento: el id del incidente y su estado.
pub open spec fn registros(evs: Seq<(i32, bool, Seq<usize>, Seq<Seq<usize>>)>) -> Seq<(i32, Seq<char>)> {
    evs.map_values(|ev: (i32, bool, Seq<usize>, Seq<Seq<usize>>)| (ev.0, estado_evento(ev.1)))
}

/// Tras eventos válidos desde cámaras libres, las cámaras están al día con
/// los incidentes que quedan pendientes y la central registró cada evento.
#[verifier::spinoff_prover]
proof fn lema_eventos_al_dia(e: CentralV, evs: Seq<(i32, bool, Seq<usize>, Seq<Seq<usize>>)>)
    requires
        forall|j: int| 0 <= j < e.camaras.len() ==> libre(#[trigger] e.camaras[j]),
        eventos_validos(e, evs),
    ensures
        tras_eventos(e, evs) matches Some(e2) ==> {
            &&& e2.camaras.len() == e.camaras.len()
            &&& camaras_al_dia(e2.camaras, vivos(evs), ids_de(e.camaras))
            &&& e2.incidentes == e.incidentes + registros(evs)
        },
    decreases evs.len(),
{
    reveal_strlit("pendiente");
    reveal_strlit("cancelado");
    reveal_strlit("activo");
    assert("pendiente"@ != "activo"@) by {
        assert("pendiente"@[0] != "activo"@[0]);
    }
    assert("cancelado"@ != "activo"@) by {
        assert("cancelado"@[0] != "activo"@[0]);
    }
    assert("cancelado"@ != "pendiente"@) by {
        assert("cancelado"@[0] != "pendiente"@[0]);
    }
    let ids = ids_de(e.camaras);
    let n = e.camaras.len();
    if evs.len() == 0 {
        assert(registros(evs) =~= Seq::<(i32, Seq<char>)>::empty());
        assert(e.incidentes + registros(evs) =~= e.incidentes);
        assert forall|j: int| 0 <= j < n implies camara_al_dia(#[trigger] e.camaras[j], vivos(evs), ids, n) by {
            let c = e.camaras[j];
            assert(c.incidentes.len() == 0);
            assert forall|i: i32| c.incidentes.contains(i) implies exists|k: int|
                0 <= k < vivos(evs).len() && (#[trigger] vivos(evs)[k]).0 == i && vivos(evs)[k].1.contains(c.id) by {
                let a = choose|a: int| 0 <= a < c.incidentes.len() && c.incidentes[a] == i;
            }
        }
    } else {
        let p = evs.drop_last();
        let ev = evs.last();
        let last = evs.len() - 1;
        assert(evs[last] == ev);
        lema_validos_prefijo(e, evs);
        lema_eventos_al_dia(e, p);
        lema_vivos(e, p);
        let vp = vivos(p);
        assert forall|t: int| 0 <= t < p.len() implies p[t] == evs[t] by {}
        if let Some(e1) = tras_eventos(e, p) {
            let est = estado_evento(ev.1);
            assert(ids_de(e1.camaras) == ids);
            assert(registros(p).len() == p.len());
            assert(!e1.incidentes.contains((ev.0, est))) by {
                if e1.incidentes.contains((ev.0, est)) {
                    let a = choose|a: int| 0 <= a < e1.incidentes.len() && e1.incidentes[a] == (ev.0, est);
                    if a < e.incidentes.len() {
                        assert(e.incidentes[a] == e1.incidentes[a]);
                        if !ev.1 {
                            let t0 = choose|t: int|
                                0 <= t < last && (#[trigger] evs[t]).1 && evs[t].0 == evs[last].0 && evs[t].2 == evs[last].2
                                    && evs[t].3 == evs[last].3;
                        }
                    } else {
                        let t = a - e.incidentes.len();
                        assert(registros(p)[t] == e1.incidentes[a]);
                        assert(registros(p)[t] == (p[t].0, estado_evento(p[t].1)));
                        assert(p[t].1 == ev.1);
                    }
                }
            }
            if ev.1 {
                let nuevo = (ev.0, ev.2, ev.3);
                assert forall|k: int| 0 <= k < vp.len() implies (#[trigger] vp[k]).0 != nuevo.0 by {
                    let t = choose|t: int| 0 <= t < p.len() && (#[trigger] p[t]).1 && (p[t].0, p[t].2, p[t].3) == #[trigger] vp[k];
                    assert(evs[t] == p[t]);
                }
                lema_pendiente_al_dia(e1.camaras, vp, nuevo);
                assert(vivos(evs) == vp.push(nuevo));
            } else {
                let t0 = choose|t: int|
                    0 <= t < last && (#[trigger] evs[t]).1 && evs[t].0 == evs[last].0 && evs[t].2 == evs[last].2 && evs[t].3
                        == evs[last].3;
                assert(p[t0] == evs[t0]);
                assert(!cancelado_en(p, ev.0)) by {
                    if cancelado_en(p, ev.0) {
                        let u = choose|u: int| 0 <= u < p.len() && !(#[trigger] p[u]).1 && p[u].0 == ev.0;
                        assert(evs[u] == p[u]);
                    }
                }
                assert(vp.contains((ev.0, ev.2, ev.3)));
                let kc = choose|k: int| 0 <= k < vp.len() && vp[k] == (ev.0, ev.2, ev.3);
                lema_cancelado_al_dia(e1.camaras, vp, kc);
                assert(vivos(evs) == quitar_incidente(vp, vp[kc].0));
            }
            if let Some((e2, _)) = tras_incidente(e1, ev.0, est, ev.2, ev.3) {
                assert(e2.incidentes == e1.incidentes.push((ev.0, est)));
                assert(registros(evs) =~= registros(p).push((ev.0, est)));
                assert(e.incidentes + registros(evs) =~= (e.incidentes + registros(p)).push((ev.0, est)));
            }
        }
    }
}

/// Desde cámaras libres, tras eventos válidos (incidentes nuevos que pasan a
/// pendientes y luego, en cualquier orden, se cancelan): mientras un incidente
/// está pendiente, graban las cámaras de su área y las lindantes de alguna de
/// ellas; y cuando ya no queda ninguno pendiente, todas las cámaras están
/// libres, en ahorro de energía.
pub proof fn ley_incidentes_pendientes_y_cancelados(e: CentralV, evs: Seq<(i32, bool, Seq<usize>, Seq<Seq<usize>>)>)
    requires
        forall|j: int| 0 <= j < e.camaras.len() ==> libre(#[trigger] e.camaras[j]),
        eventos_validos(e, evs),
    ensures
        tras_eventos(e, evs) matches Some(e2) ==> {
            &&& ids_de(e2.camaras) == ids_de(e.camaras)
            &&& forall|k: int, j: int|
                #![trigger vivos(evs)[k], e2.camaras[j]]
                0 <= k < vivos(evs).len() && 0 <= j < e2.camaras.len() && (vivos(evs)[k].1.contains(e2.camaras[j].id)
                    || exists|i: int|
                    0 <= i < e.camaras.len() && vivos(evs)[k].1.contains(e.camaras[i].id) && #[trigger] vivos(
                        evs,
                    )[k].2[i].contains(e2.camaras[j].id)) ==> e2.camaras[j].estado == EstadoCamara::Grabando
            &&& vivos(evs).len() == 0 ==> forall|j: int| 0 <= j < e2.camaras.len() ==> libre(#[trigger] e2.camaras[j])
        },
{
    lema_eventos_al_dia(e, evs);
    let ids = ids_de(e.camaras);
    let n = e.camaras.len();
    let v = vivos(evs);
    if let Some(e2) = tras_eventos(e, evs) {
        assert forall|k: int, j: int|
            #![trigger v[k], e2.camaras[j]]
            0 <= k < v.len() && 0 <= j < e2.camaras.len() && (v[k].1.contains(e2.camaras[j].id) || exists|i: int|
                0 <= i < e.camaras.len() && v[k].1.contains(e.camaras[i].id) && #[trigger] v[k].2[i].contains(
                    e2.camaras[j].id,
                )) implies e2.camaras[j].estado == EstadoCamara::Grabando by {
            let c = e2.camaras[j];
            assert(camara_al_dia(c, v, ids, n));
            lema_suma_cota(v, ids, c.id, n);
            if v[k].1.contains(c.id) {
                assert(c.incidentes.contains(v[k].0));
            } else {
                let i = choose|i: int|
                    0 <= i < e.camaras.len() && v[k].1.contains(e.camaras[i].id) && #[trigger] v[k].2[i].contains(c.id);
                assert(ids[i] == e.camaras[i].id);
                lema_veces_crece(ids, v[k].1, v[k].2, c.id, (i + 1) as nat, n);
                lema_veces_crece(ids, v[k].1, v[k].2, c.id, 0, i as nat);
            }
        }
        if v.len() == 0 {
            assert forall|j: int| 0 <= j < e2.camaras.len() implies libre(#[trigger] e2.camaras[j]) by {
                let c = e2.camaras[j];
                assert(camara_al_dia(c, v, ids, n));
                if c.incidentes.len() > 0 {
                    assert(c.incidentes.contains(c.incidentes[0]));
                }
            }
        }
    }
}

/// Un incidente ya procesado con el mismo estado no cambia nada ni informa
/// cambios, y uno `activo` se ignora siempre.
pub proof fn ley_incidente_repetido(
    e: CentralV,
    inc: i32,
    estado: Seq<char>,
    rango: Seq<usize>,
    lind: Seq<Seq<usize>>,
    rango2: Seq<usize>,
    lind2: Seq<Seq<usize>>,
)
    ensures
        tras_incidente(e, inc, estado, rango, lind) matches Some((e2, _)) ==> tras_incidente(
            e2,
            inc,
            estado,
            rango2,
            lind2,
        ) == Some((e2, Seq::<Cambio>::empty())),
        tras_incidente(e, inc, "activo"@, rango, lind) == Some((e, Seq::<Cambio>::empty())),
{
    if let Some((e2, _)) = tras_incidente(e, inc, estado, rango, lind) {
        if !(e.incidentes.contains((inc, estado)) || estado == "activo"@) {
            assert(e2.incidentes[e2.incidentes.len() - 1] == (inc, estado));
        }
    }
}

/// Vista de la central: sus cámaras en orden de id, los incidentes ya
/// procesados (id y estado) y el último id asignado.
pub struct CentralV {
    pub camaras: Seq<CamaraV>,
    pub incidentes: Seq<(i32, Seq<char>)>,
    pub id: usize,
}

/// Los ids de las cámaras crecen a lo largo de la lista y ninguno pasa del último asignado.
pub open spec fn ids_crecientes(cams: Seq<CamaraV>, tope: usize) -> bool {
    &&& forall|i: int, j: int| 0 <= i < j < cams.len() ==> cams[i].id < cams[j].id
    &&& forall|i: int| 0 <= i < cams.len() ==> cams[i].id <= tope
}

/// Si dos listas tienen los mismos ids, ambas los tienen crecientes o ninguna.
proof fn lema_mismos_ids(a: Seq<CamaraV>, b: Seq<CamaraV>, tope: usize)
    requires
        ids_de(a) == ids_de(b),
        ids_crecientes(a, tope),
    ensures
        ids_crecientes(b, tope),
{
    assert(a.len() == ids_de(a).len());
    assert forall|i: int, j: int| 0 <= i < j < b.len() implies b[i].id < b[j].id by {
        assert(ids_de(a)[i] == a[i].id && ids_de(b)[i] == b[i].id);
        assert(ids_de(a)[j] == a[j].id && ids_de(b)[j] == b[j].id);
    }
    assert forall|i: int| 0 <= i < b.len() implies b[i].id <= tope by {
        assert(ids_de(a)[i] == a[i].id && ids_de(b)[i] == b[i].id);
    }
}

/// La central de cámaras: las cámaras, los incidentes ya procesados y el último id asignado.
#[derive(Debug)]
pub struct CentralDeCamaras {
    camaras: Vec<Camara>,
    incidentes: Vec<(i32, String)>,
    id: usize,
}

impl View for CentralDeCamaras {
    type V = CentralV;

    closed spec fn view(&self) -> CentralV {
        CentralV {
            camaras: vistas_camaras(self.camaras@),
            incidentes: self.incidentes@.map_values(|p: (i32, String)| (p.0, p.1@)),
            id: self.id,
        }
    }
}

/// La primera cámara con ese id.
pub open spec fn posicion_camara(cams: Seq<CamaraV>, id: usize) -> Option<int> {
    if exists|i: int| 0 <= i < cams.len() && cams[i].id == id {
        Some(choose|i: int| 0 <= i < cams.len() && cams[i].id == id)
    } else {
        None
    }
}

/// La central tras procesar el incidente `inc` con estado `estado`, siendo
/// `rango` los ids de las cámaras en su área y `lind[i]` los de las lindantes
/// de la cámara `i` de la lista, y los cambios de estado a informar, en orden.
/// Un incidente ya procesado con ese estado, o `activo`, no cambia nada. Uno
/// `pendiente` agrega el incidente a cada cámara del área que no lo tenía y
/// luego marca como lindantes a las lindantes de cada cámara del área; uno
/// `cancelado` hace lo inverso; otro estado sólo se registra. `None` si algún
/// contador de lindancia se sale de un `i32`.
pub open spec fn tras_incidente(
    e: CentralV,
    inc: i32,
    estado: Seq<char>,
    rango: Seq<usize>,
    lind: Seq<Seq<usize>>,
) -> Option<(CentralV, Seq<Cambio>)> {
    if e.incidentes.contains((inc, estado)) || estado == "activo"@ {
        Some((e, Seq::empty()))
    } else {
        let registrados = e.incidentes.push((inc, estado));
        if estado == "pendiente"@ || estado == "cancelado"@ {
            let (m1, m2) = if estado == "pendiente"@ {
                (Modo::IncidentePendiente(inc), Modo::LindantePendiente)
            } else {
                (Modo::IncidenteCancelado(inc), Modo::LindanteCancelado)
            };
            match pasada(e.camaras, rango, m1) {
                None => None,
                Some((c1, ch1)) => match por_fuentes(c1, ids_de(e.camaras), rango, lind, m2, e.camaras.len()) {
                    None => None,
                    Some((c2, ch2)) => Some((CentralV { camaras: c2, incidentes: registrados, id: e.id }, ch1 + ch2)),
                },
            }
        } else {
            Some((CentralV { incidentes: registrados, ..e }, Seq::empty()))
        }
    }
}

/// La central tras eliminar la cámara `id`, siendo `lind` los ids de sus
/// lindantes: por cada incidente de su área, sus lindantes dejan de ser
/// lindantes suyas una vez; luego se quita. `Err` si no hay cámara con ese
/// id; `None` si algún contador de lindancia se sale de un `i32`.
pub open spec fn tras_eliminar(e: CentralV, id: usize, lind: Seq<usize>) -> Option<Result<(CentralV, Seq<Cambio>), ()>> {
    match posicion_camara(e.camaras, id) {
        None => Some(Err(())),
        Some(i) => match rondas(e.camaras, lind, e.camaras[i].incidentes.len()) {
            None => None,
            Some((c, ch)) => Some(Ok((CentralV { camaras: c.remove(i), ..e }, ch))),
        },
    }
}

impl CentralDeCamaras {
    /// Los ids crecen, no pasan del último asignado, y toda cámara con incidentes graba.
    #[verifier::type_invariant]
    spec fn bien_formada(self) -> bool {
        &&& ids_crecientes(vistas_camaras(self.camaras@), self.id)
        &&& todas_graban_si_tienen(vistas_camaras(self.camaras@))
    }

    /// Una central sin cámaras ni incidentes.
    pub fn new() -> (r: CentralDeCamaras)
        ensures
            r@ == (CentralV { camaras: Seq::empty(), incidentes: Seq::empty(), id: 0 }),
    {
        let r = CentralDeCamaras { camaras: Vec::new(), incidentes: Vec::new(), id: 0 };
        assert(vistas_camaras(r.camaras@) =~= Seq::empty());
        assert(r@.incidentes =~= Seq::empty());
        r
    }

    /// Las cámaras, en orden de id.
    pub fn camaras(&self) -> (r: &Vec<Camara>)
        ensures
            vistas_camaras(r@) == self@.camaras,
            ids_crecientes(self@.camaras, self@.id),
            todas_graban_si_tienen(self@.camaras),
    {
        proof {
            use_type_invariant(self);
        }
        &self.camaras
    }

    /// El último id asignado.
    pub fn ultimo_id(&self) -> (r: usize)
        ensures
            r == self@.id,
    {
        self.id
    }

    /// Agrega una cámara nueva, con el id siguiente, en ahorro de energía.
    pub fn nueva_camara(&mut self) -> (r: usize)
        requires
            old(self)@.id < usize::MAX,
        ensures
            r == old(self)@.id + 1,
            final(self)@ == (CentralV {
                camaras: old(self)@.camaras.push(
                    CamaraV { id: r, estado: EstadoCamara::AhorroDeEnergia, incidentes: Seq::empty(), numlindantes: 0 },
                ),
                id: r,
                ..old(self)@
            }),
    {
        proof {
            use_type_invariant(&*self);
        }
        let ghost antes = self.camaras@;
        self.id = self.id + 1;
        let c = Camara::new(self.id);
        let mut camaras: Vec<Camara> = Vec::new();
        std::mem::swap(&mut camaras, &mut self.camaras);
        camaras.push(c);
        proof {
            let vn = vistas_camaras(camaras@);
            let va = vistas_camaras(antes);
            assert(vn =~= va.push(c@));
            assert forall|i: int, j: int| 0 <= i < j < vn.len() implies vn[i].id < vn[j].id by {
                if j == vn.len() - 1 {
                    assert(va[i].id <= self.id - 1);
                }
            }
            assert forall|i: int| 0 <= i < vn.len() implies graba_si_tiene(#[trigger] vn[i]) by {
                if i < va.len() {
                    assert(graba_si_tiene(va[i]));
                }
            }
        }
        self.camaras = camaras;
        assert(vistas_camaras(self.camaras@) =~= vistas_camaras(antes).push(c@));
        self.id
    }

    /// Anota el incidente como procesado con ese estado.
    fn registrar(&mut self, inc: i32, estado: &str)
        ensures
            final(self)@ == (CentralV { incidentes: old(self)@.incidentes.push((inc, estado@)), ..old(self)@ }),
    {
        proof {
            use_type_invariant(&*self);
        }
        let mut incidentes: Vec<(i32, String)> = Vec::new();
        std::mem::swap(&mut incidentes, &mut self.incidentes);
        let ghost antes = incidentes@;
        incidentes.push((inc, String::from_str(estado)));
        self.incidentes = incidentes;
        assert(self@.incidentes =~= antes.map_values(|p: (i32, String)| (p.0, p.1@)).push((inc, estado@)));
    }

    /// Si el incidente ya se procesó con ese estado.
    fn registrado(&self, inc: i32, estado: &str) -> (r: bool)
        ensures
            r == self@.incidentes.contains((inc, estado@)),
    {
        let ghost v = self@.incidentes;
        for i in 0..self.incidentes.len()
            invariant
                v == self@.incidentes,
                forall|j: int| 0 <= j < i ==> v[j] != (inc, estado@),
        {
            assert(v[i as int] == (self.incidentes@[i as int].0, self.incidentes@[i as int].1@));
            if self.incidentes[i].0 == inc && textos_iguales(self.incidentes[i].1.as_str(), estado) {
                return true;
            }
        }
        false
    }

    /// Procesa un incidente, como dice `tras_incidente`; `None`, sin cambiar
    /// nada, si algún contador de lindancia se saldría de un `i32`.
    pub fn procesar_incidente(&mut self, inc: i32, estado: &str, en_rango: &Vec<usize>, lindantes: &Vec<Vec<usize>>) -> (r:
        Option<Vec<Cambio>>)
        requires
            lindantes@.len() == old(self)@.camaras.len(),
        ensures
            match tras_incidente(old(self)@, inc, estado@, en_rango@, lindantes@.map_values(|l: Vec<usize>| l@)) {
                None => r is None && final(self)@ == old(self)@,
                Some((e, ch)) => r matches Some(v) && v@ == ch && final(self)@ == e,
            },
    {
        proof {
            use_type_invariant(&*self);
        }
        let ghost e0 = self@;
        if self.registrado(inc, estado) || textos_iguales(estado, "activo") {
            return Some(Vec::new());
        }
        let pendiente = textos_iguales(estado, "pendiente");
        if !pendiente && !textos_iguales(estado, "cancelado") {
            self.registrar(inc, estado);
            return Some(Vec::new());
        }
        let (m1, m2) = if pendiente {
            (Modo::IncidentePendiente(inc), Modo::LindantePendiente)
        } else {
            (Modo::IncidenteCancelado(inc), Modo::LindanteCancelado)
        };
        let (c1, mut cambios) = match hacer_pasada(&self.camaras, en_rango, m1) {
            None => {
                return None;
            },
            Some(x) => x,
        };
        let ghost ids = ids_de(e0.camaras);
        proof {
            lema_pasada_ids(e0.camaras, en_rango@, m1);
            lema_pasada_graba(e0.camaras, en_rango@, m1);
        }
        let (c2, mut ch2) = match pasar_por_fuentes(c1, Ghost(ids), en_rango, lindantes, m2) {
            None => {
                return None;
            },
            Some(x) => x,
        };
        proof {
            let v1 = vistas_camaras(c1@);
            lema_fuentes_ids(v1, ids, en_rango@, lindantes@.map_values(|l: Vec<usize>| l@), m2, v1.len() as nat);
            lema_fuentes_graba(v1, ids, en_rango@, lindantes@.map_values(|l: Vec<usize>| l@), m2, v1.len() as nat);
            lema_mismos_ids(e0.camaras, vistas_camaras(c2@), self.id);
        }
        self.camaras = c2;
        self.registrar(inc, estado);
        cambios.append(&mut ch2);
        Some(cambios)
    }

    /// Elimina la cámara `id`, como dice `tras_eliminar`: `Some(Err(..))` si
    /// no existe; `None`, sin cambiar nada, si algún contador de lindancia se
    /// saldría de un `i32`.
    pub fn eliminar_camara(&mut self, id: usize, lindantes: &Vec<usize>) -> (r: Option<
        Result<Vec<Cambio>, ErroresCentral>,
    >)
        ensures
            match tras_eliminar(old(self)@, id, lindantes@) {
                None => r is None && final(self)@ == old(self)@,
                Some(Err(())) => r matches Some(Err(e)) && e is NoSePudoBorrarLaCamara && final(self)@ == old(
                    self,
                )@,
                Some(Ok((e, ch))) => r matches Some(Ok(v)) && v@ == ch && final(self)@ == e,
            },
    {
        proof {
            use_type_invariant(&*self);
        }
        let ghost e0 = self@;
        let mut k: usize = 0;
        while k < self.camaras.len() && self.camaras[k].id != id
            invariant
                e0 == self@,
                k <= e0.camaras.len(),
                forall|j: int| 0 <= j < k ==> e0.camaras[j].id != id,
            decreases e0.camaras.len() - k,
        {
            assert(e0.camaras[k as int] == self.camaras@[k as int]@);
            k = k + 1;
        }
        if k == self.camaras.len() {
            return Some(Err(ErroresCentral::NoSePudoBorrarLaCamara));
        }
        assert(e0.camaras[k as int] == self.camaras@[k as int]@);
        let ghost p = posicion_camara(e0.camaras, id);
        assert(p == Some(k as int)) by {
            let q = p->0;
            if q < k {
                assert(e0.camaras[q].id != id);
            } else if q > k {
                assert(e0.camaras[k as int].id < e0.camaras[q].id);
            }
        }
        let cantidad = self.camaras[k].get_cantidad_incidentes();
        let copia = copiar_camaras(&self.camaras);
        let (mut nuevas, cambios) = match hacer_rondas(copia, lindantes, cantidad) {
            None => {
                return None;
            },
            Some(x) => x,
        };
        proof {
            lema_rondas_ids(e0.camaras, lindantes@, cantidad as nat);
            lema_rondas_graba(e0.camaras, lindantes@, cantidad as nat);
            lema_mismos_ids(e0.camaras, vistas_camaras(nuevas@), self.id);
            assert(ids_de(vistas_camaras(nuevas@)).len() == e0.camaras.len());
        }
        let ghost vn = vistas_camaras(nuevas@);
        nuevas.remove(k);
        assert(vistas_camaras(nuevas@) =~= vn.remove(k as int));
        self.camaras = nuevas;
        Some(Ok(cambios))
    }
}

/// Una copia de las cámaras.
fn copiar_camaras(v: &Vec<Camara>) -> (r: Vec<Camara>)
    ensures
        vistas_camaras(r@) == vistas_camaras(v@),
{
    let mut r: Vec<Camara> = Vec::new();
    for i in 0..v.len()
        invariant
            vistas_camaras(r@) == vistas_camaras(v@).take(i as int),
    {
        let ghost antes = r@;
        r.push(v[i].copia());
        assert(vistas_camaras(r@) =~= vistas_camaras(antes).push(v@[i as int]@));
        assert(vistas_camaras(v@).take(i + 1) =~= vistas_camaras(v@).take(i as int).push(v@[i as int]@));
    }
    assert(vistas_camaras(v@).take(v@.len() as int) =~= vistas_camaras(v@));
    r
}

} // verus!
