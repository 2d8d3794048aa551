//! JetStream: almacena los mensajes publicados en ciertos subjects y los
//! reenvía a sus consumidores hasta que los confirman; guarda su estado en
//! archivos CSV para poder recuperarlo.
use vstd::prelude::*;
use vstd::string::*;
use crate::texto::{vistas, decimal, usize_a_texto, dividir, dividir_exec, recorte, recortar, palabras, palabras_exec, parse_usize, parse_usize_spec, textos_iguales};
use crate::json::{campo_lista_json, campo_texto_json, campo_lista, campo_texto};
use crate::subject::{coincide_subject, subject_matches_token};
use crate::errores::ErroresServer;
use crate::acciones::{Accion, AccionV, vistas_acciones, agregar};
use crate::usuarios::algun_patron_acepta;

verus! {

/// Directorio de los archivos de estado.
pub const RESOURCES_PATH: &'static str = "src/servidor/structs/jet_stream/resources/";

/// Archivo con los mensajes de cada JetStream.
pub const JETSTREAM_DATA_PATH: &'static str = "jetstream_data.csv";

/// Archivo con los consumidores de cada JetStream.
pub const JETSTREAM_CONSUMERS_PATH: &'static str = "jetstream_consumers.csv";

/// Archivo con el estado de cada consumidor.
pub const CONSUMERS_PATH: &'static str = "consumers.csv";

/// Un consumidor de tipo push: recibe los mensajes de un JetStream y los
/// entrega en su subject de entrega.
#[derive(Debug)]
pub struct PushConsumer {
    pub name: String,
    pub delivery_subject: String,
    last_acknoledged: usize,
}

/// Vista de un consumidor.
pub struct ConsumidorV {
    pub name: Seq<char>,
    pub delivery_subject: Seq<char>,
    pub last_acknoledged: usize,
}

impl View for PushConsumer {
    type V = ConsumidorV;

    closed spec fn view(&self) -> ConsumidorV {
        ConsumidorV {
            name: self.name@,
            delivery_subject: self.delivery_subject@,
            last_acknoledged: self.last_acknoledged,
        }
    }
}

/// Vista de una lista de consumidores.
pub open spec fn vistas_consumidores(v: Seq<PushConsumer>) -> Seq<ConsumidorV> {
    v.map_values(|c: PushConsumer| c@)
}

/// La línea CSV de un consumidor: nombre, subject de entrega y último confirmado.
pub open spec fn linea_consumidor(c: ConsumidorV) -> Seq<char> {
    c.name + ","@ + c.delivery_subject + ","@ + decimal(c.last_acknoledged as nat)
}

/// El consumidor que describe el JSON (`delivery_subject` y `name`), sin mensajes confirmados.
pub open spec fn consumidor_de_json(json: Seq<char>) -> Option<ConsumidorV> {
    match (campo_texto_json(json, "delivery_subject"@), campo_texto_json(json, "name"@)) {
        (Some(d), Some(n)) => Some(ConsumidorV { name: n, delivery_subject: d, last_acknoledged: 0 }),
        _ => None,
    }
}

impl PushConsumer {
    /// Crea un consumidor a partir de un JSON con su `delivery_subject` y su `name`.
    pub fn from_json(json: &str) -> (r: Result<PushConsumer, ErroresServer>)
        ensures
            match consumidor_de_json(json@) {
                Some(c) => r matches Ok(p) && p@ == c,
                None => r matches Err(e) && e is InvalidJson,
            },
    {
        let delivery_subject = match campo_texto(json, "delivery_subject") {
            Some(d) => d,
            None => {
                return Err(ErroresServer::InvalidJson);
            },
        };
        let name = match campo_texto(json, "name") {
            Some(n) => n,
            None => {
                return Err(ErroresServer::InvalidJson);
            },
        };
        Ok(PushConsumer::new(delivery_subject.as_str(), name.as_str(), 0))
    }

    /// Un consumidor con ese subject de entrega, nombre y último mensaje confirmado.
    pub fn new(delivery_subject: &str, name: &str, last_acknoledged: usize) -> (r: PushConsumer)
        ensures
            r@ == (ConsumidorV {
                name: name@,
                delivery_subject: delivery_subject@,
                last_acknoledged,
            }),
    {
        PushConsumer {
            name: String::from_str(name),
            delivery_subject: String::from_str(delivery_subject),
            last_acknoledged,
        }
    }

    /// La línea CSV con el estado del consumidor.
    pub fn to_csv(&self) -> (r: String)
        ensures
            r@ == linea_consumidor(self@),
    {
        let mut s = self.name.clone();
        s.append(",");
        s.append(self.delivery_subject.as_str());
        s.append(",");
        let n = usize_a_texto(self.last_acknoledged);
        s.append(n.as_str());
        s
    }

    /// Registra que el mensaje `id` fue confirmado.
    pub fn ack(&mut self, id: usize)
        ensures
            final(self)@ == (ConsumidorV { last_acknoledged: id, ..old(self)@ }),
    {
        self.last_acknoledged = id;
    }

    /// El nombre del consumidor.
    pub fn nombre(&self) -> (r: &String)
        ensures
            r@ == self@.name,
    {
        &self.name
    }

    /// El subject en que el consumidor entrega los mensajes.
    pub fn subject_de_entrega(&self) -> (r: &String)
        ensures
            r@ == self@.delivery_subject,
    {
        &self.delivery_subject
    }

    /// El último mensaje confirmado.
    pub fn ultimo_confirmado(&self) -> (r: usize)
        ensures
            r == self@.last_acknoledged,
    {
        self.last_acknoledged
    }

    /// Una copia del consumidor.
    pub fn copia(&self) -> (r: PushConsumer)
        ensures
            r@ == self@,
    {
        PushConsumer {
            name: self.name.clone(),
            delivery_subject: self.delivery_subject.clone(),
            last_acknoledged: self.last_acknoledged,
        }
    }
}

/// Almacena mensajes y los envía a los consumidores para garantizar la entrega.
#[derive(Debug)]
pub struct JetStream {
    pub subjects: Vec<String>,
    messages: Vec<(String, usize)>,
    pub name: String,
    consumers: Vec<PushConsumer>,
    id_counter: usize,
    resources_path: String,
    data_path: String,
    consumers_path: String,
    jet_stream_consumers_path: String,
}

/// Vista de un JetStream.
pub struct JetStreamV {
    pub subjects: Seq<Seq<char>>,
    pub messages: Seq<(Seq<char>, usize)>,
    pub name: Seq<char>,
    pub consumers: Seq<ConsumidorV>,
    pub id_counter: usize,
    pub resources_path: Seq<char>,
    pub data_path: Seq<char>,
    pub consumers_path: Seq<char>,
    pub jet_stream_consumers_path: Seq<char>,
}

/// Vista de una lista de mensajes con su id.
pub open spec fn vistas_mensajes(v: Seq<(String, usize)>) -> Seq<(Seq<char>, usize)> {
    v.map_values(|m: (String, usize)| (m.0@, m.1))
}

impl View for JetStream {
    type V = JetStreamV;

    closed spec fn view(&self) -> JetStreamV {
        JetStreamV {
            subjects: vistas(self.subjects@),
            messages: vistas_mensajes(self.messages@),
            name: self.name@,
            consumers: vistas_consumidores(self.consumers@),
            id_counter: self.id_counter,
            resources_path: self.resources_path@,
            data_path: self.data_path@,
            consumers_path: self.consumers_path@,
            jet_stream_consumers_path: self.jet_stream_consumers_path@,
        }
    }
}

/// Los mensajes en formato CSV: `,id mensaje` por cada uno.
pub open spec fn mensajes_csv(ms: Seq<(Seq<char>, usize)>) -> Seq<char>
    decreases ms.len(),
{
    if ms.len() == 0 {
        Seq::empty()
    } else {
        mensajes_csv(ms.drop_last()) + ","@ + decimal(ms.last().1 as nat) + " "@ + ms.last().0
    }
}

/// Los nombres de los consumidores en formato CSV: `,nombre` por cada uno.
pub open spec fn consumidores_csv(cs: Seq<ConsumidorV>) -> Seq<char>
    decreases cs.len(),
{
    if cs.len() == 0 {
        Seq::empty()
    } else {
        consumidores_csv(cs.drop_last()) + ","@ + cs.last().name
    }
}

/// La línea CSV con los mensajes de un JetStream: nombre, primer subject y mensajes.
pub open spec fn linea_datos(js: JetStreamV) -> Seq<char> {
    js.name + ","@ + js.subjects[0] + mensajes_csv(js.messages)
}

/// La línea CSV con los consumidores de un JetStream.
pub open spec fn linea_relacion(js: JetStreamV) -> Seq<char> {
    js.name + consumidores_csv(js.consumers)
}

/// La acción de guardar la línea de datos del JetStream.
pub open spec fn guardar_datos(js: JetStreamV) -> AccionV {
    AccionV::GuardarCsv {
        archivo: js.resources_path + js.data_path,
        clave: js.name,
        linea: linea_datos(js),
    }
}

/// La acción de guardar la línea de consumidores del JetStream.
pub open spec fn guardar_relacion(js: JetStreamV) -> AccionV {
    AccionV::GuardarCsv {
        archivo: js.resources_path + js.jet_stream_consumers_path,
        clave: js.name,
        linea: linea_relacion(js),
    }
}

/// El envío de un mensaje a cada consumidor, en orden.
pub open spec fn envios(
    stream: Seq<char>,
    cs: Seq<ConsumidorV>,
    msg: Seq<char>,
    id: usize,
) -> Seq<AccionV> {
    cs.map_values(
        |c: ConsumidorV|
            AccionV::EnviarAConsumidor { stream: stream, consumidor: c.name, msg: msg, id: id },
    )
}

/// El JetStream tras almacenar un mensaje: lo agrega con el id siguiente.
pub open spec fn con_mensaje(js: JetStreamV, msg: Seq<char>) -> JetStreamV {
    JetStreamV {
        messages: js.messages.push((msg, js.id_counter)),
        id_counter: (js.id_counter + 1) as usize,
        ..js
    }
}

/// Las acciones de almacenar un mensaje: enviarlo a cada consumidor y guardar el estado.
pub open spec fn acciones_almacenar(js: JetStreamV, msg: Seq<char>) -> Seq<AccionV> {
    envios(js.name, js.consumers, msg, js.id_counter) + seq![
        guardar_datos(con_mensaje(js, msg)),
        guardar_relacion(con_mensaje(js, msg)),
    ]
}

/// Las acciones de reenviar todos los mensajes almacenados a los consumidores.
pub open spec fn acciones_reenvio(
    stream: Seq<char>,
    ms: Seq<(Seq<char>, usize)>,
    cs: Seq<ConsumidorV>,
) -> Seq<AccionV>
    decreases ms.len(),
{
    if ms.len() == 0 {
        Seq::empty()
    } else {
        acciones_reenvio(stream, ms.drop_last(), cs) + envios(stream, cs, ms.last().0, ms.last().1)
    }
}

/// El primer consumidor de la lista con ese nombre.
pub open spec fn posicion_consumidor(cs: Seq<ConsumidorV>, nombre: Seq<char>) -> Option<int> {
    if exists|i: int| 0 <= i < cs.len() && cs[i].name == nombre {
        Some(
            choose|i: int|
                0 <= i < cs.len() && cs[i].name == nombre && forall|j: int|
                    0 <= j < i ==> cs[j].name != nombre,
        )
    } else {
        None
    }
}

/// Copia un texto.
fn copiar(s: &String) -> (r: String)
    ensures
        r@ == s@,
{
    s.clone()
}

impl JetStream {
    /// Un JetStream con esos subjects y nombre, sin mensajes ni consumidores,
    /// que guarda su estado en los archivos dados.
    pub fn nuevo(
        subjects: Vec<String>,
        name: &str,
        resources_path: &str,
        data_path: &str,
        consumers_path: &str,
        jet_stream_consumers_path: &str,
    ) -> (r: JetStream)
        ensures
            r@ == (JetStreamV {
                subjects: vistas(subjects@),
                messages: Seq::empty(),
                name: name@,
                consumers: Seq::empty(),
                id_counter: 0,
                resources_path: resources_path@,
                data_path: data_path@,
                consumers_path: consumers_path@,
                jet_stream_consumers_path: jet_stream_consumers_path@,
            }),
    {
        let r = JetStream {
            subjects,
            messages: Vec::new(),
            name: String::from_str(name),
            consumers: Vec::new(),
            id_counter: 0,
            resources_path: String::from_str(resources_path),
            data_path: String::from_str(data_path),
            consumers_path: String::from_str(consumers_path),
            jet_stream_consumers_path: String::from_str(jet_stream_consumers_path),
        };
        assert(vistas_mensajes(r.messages@) =~= Seq::empty());
        assert(vistas_consumidores(r.consumers@) =~= Seq::empty());
        r
    }

    /// Un JetStream recuperado de los archivos: un subject, sus mensajes, sus
    /// consumidores y el id del próximo mensaje.
    pub fn restaurado(
        subject: String,
        name: String,
        messages: Vec<(String, usize)>,
        consumers: Vec<PushConsumer>,
        id_counter: usize,
        resources_path: &str,
        data_path: &str,
        consumers_path: &str,
        jet_stream_consumers_path: &str,
    ) -> (r: JetStream)
        ensures
            r@ == (JetStreamV {
                subjects: seq![subject@],
                messages: vistas_mensajes(messages@),
                name: name@,
                consumers: vistas_consumidores(consumers@),
                id_counter,
                resources_path: resources_path@,
                data_path: data_path@,
                consumers_path: consumers_path@,
                jet_stream_consumers_path: jet_stream_consumers_path@,
            }),
    {
        let mut subjects: Vec<String> = Vec::new();
        subjects.push(subject);
        assert(vistas(subjects@) =~= seq![subjects@[0]@]);
        JetStream {
            subjects,
            messages,
            name,
            consumers,
            id_counter,
            resources_path: String::from_str(resources_path),
            data_path: String::from_str(data_path),
            consumers_path: String::from_str(consumers_path),
            jet_stream_consumers_path: String::from_str(jet_stream_consumers_path),
        }
    }

    /// El id que tendrá el próximo mensaje.
    pub fn siguiente_id(&self) -> (r: usize)
        ensures
            r == self@.id_counter,
    {
        self.id_counter
    }

    /// Cuántos subjects tiene el JetStream.
    pub fn cantidad_subjects(&self) -> (r: usize)
        ensures
            r == self@.subjects.len(),
    {
        self.subjects.len()
    }

    /// El nombre del JetStream.
    pub fn nombre(&self) -> (r: &String)
        ensures
            r@ == self@.name,
    {
        &self.name
    }

    /// Los mensajes almacenados, con su id, en el orden en que llegaron.
    pub fn mensajes(&self) -> (r: &Vec<(String, usize)>)
        ensures
            vistas_mensajes(r@) == self@.messages,
    {
        &self.messages
    }

    /// Los consumidores del JetStream.
    pub fn consumidores(&self) -> (r: &Vec<PushConsumer>)
        ensures
            vistas_consumidores(r@) == self@.consumers,
    {
        &self.consumers
    }

    /// Verifica si `subject` coincide con alguno de los subjects del JetStream.
    pub fn matches(&self, subject: &str) -> (r: bool)
        ensures
            r == algun_patron_acepta(self@.subjects, subject@),
    {
        let ghost ps = vistas(self.subjects@);
        for i in 0..self.subjects.len()
            invariant
                ps == vistas(self.subjects@),
                forall|j: int| 0 <= j < i ==> !coincide_subject(#[trigger] ps[j], subject@),
        {
            if subject_matches_token(self.subjects[i].as_str(), subject) {
                assert(coincide_subject(ps[i as int], subject@));
                return true;
            }
        }
        false
    }

    /// La línea CSV con los mensajes del JetStream.
    pub fn linea_datos(&self) -> (r: String)
        requires
            self@.subjects.len() > 0,
        ensures
            r@ == linea_datos(self@),
    {
        let mut s = self.name.clone();
        s.append(",");
        s.append(self.subjects[0].as_str());
        assert(vistas(self.subjects@)[0] == self.subjects@[0]@);
        let ghost ms = vistas_mensajes(self.messages@);
        let ghost base = s@;
        for i in 0..self.messages.len()
            invariant
                ms == vistas_mensajes(self.messages@),
                s@ == base + mensajes_csv(ms.take(i as int)),
        {
            s.append(",");
            let n = usize_a_texto(self.messages[i].1);
            s.append(n.as_str());
            s.append(" ");
            s.append(self.messages[i].0.as_str());
            assert(ms.take(i + 1).drop_last() =~= ms.take(i as int));
            assert(ms.take(i + 1).last() == ms[i as int]);
        }
        assert(ms.take(ms.len() as int) =~= ms);
        s
    }

    /// La línea CSV con los consumidores del JetStream.
    pub fn linea_relacion(&self) -> (r: String)
        ensures
            r@ == linea_relacion(self@),
    {
        let mut s = self.name.clone();
        let ghost cs = vistas_consumidores(self.consumers@);
        for i in 0..self.consumers.len()
            invariant
                cs == vistas_consumidores(self.consumers@),
                s@ == self.name@ + consumidores_csv(cs.take(i as int)),
        {
            s.append(",");
            s.append(self.consumers[i].name.as_str());
            assert(cs.take(i + 1).drop_last() =~= cs.take(i as int));
            assert(cs.take(i + 1).last() == cs[i as int]);
        }
        assert(cs.take(cs.len() as int) =~= cs);
        s
    }

    /// Guarda en archivos los datos y los consumidores del JetStream.
    pub fn store_jetstream(&self, acciones: &mut Vec<Accion>)
        requires
            self@.subjects.len() > 0,
        ensures
            vistas_acciones(final(acciones)@) == vistas_acciones(old(acciones)@) + seq![
                guardar_datos(self@),
                guardar_relacion(self@),
            ],
    {
        let ghost antes = vistas_acciones(acciones@);
        self.store_jetstream_data(acciones);
        self.store_jetstream_consumer_rel(acciones);
        assert(vistas_acciones(acciones@) =~= antes + seq![
            guardar_datos(self@),
            guardar_relacion(self@),
        ]);
    }

    /// Guarda en archivo los mensajes del JetStream.
    fn store_jetstream_data(&self, acciones: &mut Vec<Accion>)
        requires
            self@.subjects.len() > 0,
        ensures
            vistas_acciones(final(acciones)@) == vistas_acciones(old(acciones)@).push(
                guardar_datos(self@),
            ),
    {
        let mut archivo = copiar(&self.resources_path);
        archivo.append(self.data_path.as_str());
        let linea = self.linea_datos();
        agregar(acciones, Accion::GuardarCsv { archivo, clave: self.name.clone(), linea });
    }

    /// Guarda en archivo los consumidores del JetStream.
    fn store_jetstream_consumer_rel(&self, acciones: &mut Vec<Accion>)
        ensures
            vistas_acciones(final(acciones)@) == vistas_acciones(old(acciones)@).push(
                guardar_relacion(self@),
            ),
    {
        let mut archivo = copiar(&self.resources_path);
        archivo.append(self.jet_stream_consumers_path.as_str());
        let linea = self.linea_relacion();
        agregar(acciones, Accion::GuardarCsv { archivo, clave: self.name.clone(), linea });
    }

    /// Pide enviar el mensaje `msg` con id `id` a cada consumidor.
    fn enviar_a_consumidores(&self, msg: &String, id: usize, acciones: &mut Vec<Accion>)
        ensures
            vistas_acciones(final(acciones)@) == vistas_acciones(old(acciones)@) + envios(
                self@.name,
                self@.consumers,
                msg@,
                id,
            ),
    {
        let ghost antes = vistas_acciones(acciones@);
        let ghost cs = vistas_consumidores(self.consumers@);
        for i in 0..self.consumers.len()
            invariant
                cs == vistas_consumidores(self.consumers@),
                vistas_acciones(acciones@) == antes + envios(self.name@, cs.take(i as int), msg@, id),
        {
            agregar(
                acciones,
                Accion::EnviarAConsumidor {
                    stream: self.name.clone(),
                    consumidor: self.consumers[i].name.clone(),
                    msg: msg.clone(),
                    id,
                },
            );
            assert(envios(self.name@, cs.take(i + 1), msg@, id) =~= envios(
                self.name@,
                cs.take(i as int),
                msg@,
                id,
            ).push(
                AccionV::EnviarAConsumidor {
                    stream: self.name@,
                    consumidor: cs[i as int].name,
                    msg: msg@,
                    id,
                },
            ));
        }
        assert(cs.take(cs.len() as int) =~= cs);
    }

    /// Almacena un mensaje con el id siguiente, lo envía a los consumidores y
    /// guarda el estado.
    pub fn store_msg(&mut self, msg: &str, acciones: &mut Vec<Accion>)
        requires
            old(self)@.subjects.len() > 0,
            old(self)@.id_counter < usize::MAX,
        ensures
            final(self)@ == con_mensaje(old(self)@, msg@),
            vistas_acciones(final(acciones)@) == vistas_acciones(old(acciones)@)
                + acciones_almacenar(old(self)@, msg@),
    {
        let ghost antes = vistas_acciones(acciones@);
        let ghost previo = self@;
        let m = String::from_str(msg);
        let id = self.id_counter;
        self.enviar_a_consumidores(&m, id, acciones);
        let ghost ms = self.messages@;
        self.messages.push((m, id));
        assert(vistas_mensajes(self.messages@) =~= vistas_mensajes(ms).push((msg@, id)));
        self.id_counter = id + 1;
        assert(self@ == con_mensaje(previo, msg@));
        self.store_jetstream_data(acciones);
        self.store_jetstream_consumer_rel(acciones);
        assert(vistas_acciones(acciones@) =~= antes + acciones_almacenar(previo, msg@));
    }

    /// Pide reenviar todos los mensajes almacenados a todos los consumidores.
    pub fn send_data_to_consumers(&self, acciones: &mut Vec<Accion>)
        ensures
            vistas_acciones(final(acciones)@) == vistas_acciones(old(acciones)@)
                + acciones_reenvio(self@.name, self@.messages, self@.consumers),
    {
        let ghost antes = vistas_acciones(acciones@);
        let ghost ms = vistas_mensajes(self.messages@);
        for i in 0..self.messages.len()
            invariant
                ms == vistas_mensajes(self.messages@),
                vistas_acciones(acciones@) == antes + acciones_reenvio(
                    self@.name,
                    ms.take(i as int),
                    self@.consumers,
                ),
        {
            let ghost previo = vistas_acciones(acciones@);
            self.enviar_a_consumidores(&self.messages[i].0, self.messages[i].1, acciones);
            assert(ms.take(i + 1).drop_last() =~= ms.take(i as int));
            assert(ms.take(i + 1).last() == ms[i as int]);
            assert(vistas_acciones(acciones@) =~= antes + acciones_reenvio(
                self@.name,
                ms.take(i + 1),
                self@.consumers,
            ));
        }
        assert(ms.take(ms.len() as int) =~= ms);
    }

    /// La posición del consumidor con ese nombre, si lo hay.
    pub fn buscar_consumidor(&self, nombre: &str) -> (r: Option<usize>)
        ensures
            match (r, posicion_consumidor(self@.consumers, nombre@)) {
                (Some(i), Some(j)) => i == j,
                (None, None) => true,
                _ => false,
            },
            r matches Some(i) ==> i < self@.consumers.len(),
    {
        let ghost cs = vistas_consumidores(self.consumers@);
        for i in 0..self.consumers.len()
            invariant
                cs == vistas_consumidores(self.consumers@),
                forall|j: int| 0 <= j < i ==> cs[j].name != nombre@,
        {
            if crate::texto::textos_iguales(self.consumers[i].name.as_str(), nombre) {
                assert(cs[i as int].name == nombre@);
                let ghost p = posicion_consumidor(cs, nombre@);
                assert(p is Some);
                let ghost k = p->0;
                assert(k == i) by {
                    if k < i {
                        assert(cs[k].name != nombre@);
                    } else if k > i {
                        assert(cs[i as int].name != nombre@);
                    }
                }
                return Some(i);
            }
        }
        None
    }

    /// Agrega un consumidor, salvo que ya haya uno con el mismo nombre, y guarda
    /// la relación con sus consumidores.
    pub fn add_consumer(&mut self, consumer: PushConsumer, acciones: &mut Vec<Accion>)
        ensures
            posicion_consumidor(old(self)@.consumers, consumer@.name) is Some ==> (final(self)@
                == old(self)@ && vistas_acciones(final(acciones)@) == vistas_acciones(
                old(acciones)@,
            )),
            posicion_consumidor(old(self)@.consumers, consumer@.name) is None ==> (final(self)@
                == (JetStreamV {
                consumers: old(self)@.consumers.push(consumer@),
                ..old(self)@
            }) && vistas_acciones(final(acciones)@) == vistas_acciones(old(acciones)@).push(
                guardar_relacion(final(self)@),
            )),
    {
        if self.buscar_consumidor(consumer.name.as_str()).is_some() {
            return;
        }
        let ghost cs = self.consumers@;
        self.consumers.push(consumer);
        assert(vistas_consumidores(self.consumers@) =~= vistas_consumidores(cs).push(consumer@));
        self.store_jetstream_consumer_rel(acciones);
    }

    /// Registra que el consumidor `consumer_name` confirmó el mensaje `ack_id`,
    /// se lo avisa y guarda su estado.
    pub fn ack(&mut self, consumer_name: &str, ack_id: usize, acciones: &mut Vec<Accion>) -> (r:
        Result<(), ErroresServer>)
        ensures
            posicion_consumidor(old(self)@.consumers, consumer_name@) is None ==> (r matches Err(
                ErroresServer::InternalError(m),
            ) && m@ == "Consumer not found"@ && final(self)@ == old(
                self,
            )@ && vistas_acciones(final(acciones)@) == vistas_acciones(old(acciones)@)),
            posicion_consumidor(old(self)@.consumers, consumer_name@) matches Some(i) ==> {
                let c = old(self)@.consumers[i];
                let nuevo = ConsumidorV { last_acknoledged: ack_id, ..c };
                &&& r is Ok
                &&& final(self)@ == (JetStreamV {
                    consumers: old(self)@.consumers.update(i, nuevo),
                    ..old(self)@
                })
                &&& vistas_acciones(final(acciones)@) == vistas_acciones(old(acciones)@) + seq![
                    AccionV::AckConsumidor { stream: old(self)@.name, consumidor: c.name, id: ack_id },
                    AccionV::GuardarCsv {
                        archivo: old(self)@.resources_path + old(self)@.consumers_path,
                        clave: c.name,
                        linea: linea_consumidor(nuevo),
                    },
                ]
            },
    {
        let i = match self.buscar_consumidor(consumer_name) {
            Some(i) => i,
            None => {
                return Err(ErroresServer::InternalError(String::from_str("Consumer not found")));
            },
        };
        let ghost antes = vistas_acciones(acciones@);
        let ghost cs = self.consumers@;
        let mut c = self.consumers.remove(i);
        c.ack(ack_id);
        agregar(
            acciones,
            Accion::AckConsumidor { stream: self.name.clone(), consumidor: c.name.clone(), id: ack_id },
        );
        let mut archivo = copiar(&self.resources_path);
        archivo.append(self.consumers_path.as_str());
        let linea = c.to_csv();
        agregar(acciones, Accion::GuardarCsv { archivo, clave: c.name.clone(), linea });
        let ghost cv = c@;
        self.consumers.insert(i, c);
        assert(self.consumers@ =~= cs.update(i as int, self.consumers@[i as int]));
        assert(vistas_consumidores(self.consumers@) =~= vistas_consumidores(cs).update(
            i as int,
            cv,
        ));
        Ok(())
    }
}

/// Los subjects de una lista JSON si todos sus elementos son textos.
pub open spec fn todos_textos(l: Seq<Option<Seq<char>>>) -> bool {
    forall|i: int| 0 <= i < l.len() ==> (#[trigger] l[i]) is Some
}

/// Los textos de una lista JSON cuyos elementos son todos textos.
pub open spec fn textos_de(l: Seq<Option<Seq<char>>>) -> Seq<Seq<char>> {
    l.map_values(|x: Option<Seq<char>>| x->0)
}

/// El JetStream que describe el JSON (con los subjects del campo `subjects` y
/// el nombre del campo `name`), o `None` si el JSON no lo describe.
pub open spec fn jetstream_de_json(
    json: Seq<char>,
    rp: Seq<char>,
    dp: Seq<char>,
    cp: Seq<char>,
    jcp: Seq<char>,
) -> Option<JetStreamV> {
    match (campo_lista_json(json, "subjects"@), campo_texto_json(json, "name"@)) {
        (Some(l), Some(n)) => if todos_textos(l) {
            Some(
                JetStreamV {
                    subjects: textos_de(l),
                    messages: Seq::empty(),
                    name: n,
                    consumers: Seq::empty(),
                    id_counter: 0,
                    resources_path: rp,
                    data_path: dp,
                    consumers_path: cp,
                    jet_stream_consumers_path: jcp,
                },
            )
        } else {
            None
        },
        _ => None,
    }
}

impl JetStream {
    /// Crea un JetStream a partir de un JSON con sus `subjects` y su `name`,
    /// que guarda su estado en los archivos dados.
    pub fn _from_json(
        json: &str,
        resources_path: &str,
        data_path: &str,
        consumers_path: &str,
        jet_stream_consumers_path: &str,
    ) -> (r: Result<JetStream, ErroresServer>)
        ensures
            match jetstream_de_json(
                json@,
                resources_path@,
                data_path@,
                consumers_path@,
                jet_stream_consumers_path@,
            ) {
                Some(v) => r matches Ok(js) && js@ == v,
                None => r matches Err(e) && e is InvalidJson,
            },
    {
        let lista = campo_lista(json, "subjects");
        let nombre = campo_texto(json, "name");
        let (lista, nombre) = match (lista, nombre) {
            (Some(l), Some(n)) => (l, n),
            _ => return Err(ErroresServer::InvalidJson),
        };
        let ghost l = campo_lista_json(json@, "subjects"@)->0;
        let mut subjects: Vec<String> = Vec::new();
        for i in 0..lista.len()
            invariant
                lista@.len() == l.len(),
                forall|k: int|
                    0 <= k < l.len() ==> match (#[trigger] lista@[k], l[k]) {
                        (Some(t), Some(u)) => t@ == u,
                        (None, None) => true,
                        _ => false,
                    },
                forall|k: int| 0 <= k < i ==> (#[trigger] l[k]) is Some,
                campo_lista_json(json@, "subjects"@) == Some(l),
                campo_texto_json(json@, "name"@) is Some,
                subjects@.len() == i,
                vistas(subjects@) == textos_de(l.take(i as int)),
        {
            let ghost e = lista@[i as int];
            assert(match (e, l[i as int]) {
                (Some(t), Some(u)) => t@ == u,
                (None, None) => true,
                _ => false,
            });
            match &lista[i] {
                Some(t) => {
                    let ghost antes = subjects@;
                    subjects.push(t.clone());
                    assert(textos_de(l.take(i + 1)) =~= textos_de(l.take(i as int)).push(
                        l[i as int]->0,
                    ));
                    assert(vistas(subjects@) =~= vistas(antes).push(t@)) by {
                        assert(subjects@ =~= antes.push(subjects@[i as int]));
                    }
                },
                None => {
                    assert(l[i as int] is None);
                    assert(!todos_textos(l));
                    return Err(ErroresServer::InvalidJson);
                },
            }
        }
        assert(l.take(l.len() as int) =~= l);
        Ok(
            JetStream::nuevo(
                subjects,
                nombre.as_str(),
                resources_path,
                data_path,
                consumers_path,
                jet_stream_consumers_path,
            ),
        )
    }

    /// Crea un JetStream a partir de un JSON, con los archivos de estado de siempre.
    pub fn from_json(json: &str) -> (r: Result<JetStream, ErroresServer>)
        ensures
            match jetstream_de_json(
                json@,
                RESOURCES_PATH@,
                JETSTREAM_DATA_PATH@,
                CONSUMERS_PATH@,
                JETSTREAM_CONSUMERS_PATH@,
            ) {
                Some(v) => r matches Ok(js) && js@ == v,
                None => r matches Err(e) && e is InvalidJson,
            },
    {
        JetStream::_from_json(
            json,
            RESOURCES_PATH,
            JETSTREAM_DATA_PATH,
            CONSUMERS_PATH,
            JETSTREAM_CONSUMERS_PATH,
        )
    }
}

/// Los datos de un consumidor en una línea CSV (nombre, subject de entrega y
/// último confirmado, recortados), o `None` si la línea no los tiene.
pub open spec fn datos_consumidor(linea: Seq<char>) -> Option<ConsumidorV> {
    let ps = dividir(linea, ',');
    if ps.len() < 3 {
        None
    } else {
        match parse_usize_spec(recorte(ps[2])) {
            Some(n) => Some(
                ConsumidorV {
                    name: recorte(ps[0]),
                    delivery_subject: recorte(ps[1]),
                    last_acknoledged: n,
                },
            ),
            None => None,
        }
    }
}

/// Parsea los datos de un consumidor tomando una línea del archivo CSV.
pub fn parse_consumers_data(line: &str) -> (r: Result<(String, String, usize), ErroresServer>)
    ensures
        match datos_consumidor(line@) {
            Some(c) => r matches Ok((n, d, u)) && n@ == c.name && d@ == c.delivery_subject && u
                == c.last_acknoledged,
            None => r matches Err(e) && e is ParserError,
        },
{
    let ps = dividir_exec(line, ',');
    assert(vistas(ps@) == dividir(line@, ','));
    if ps.len() < 3 {
        return Err(ErroresServer::ParserError);
    }
    let ultimo = recortar(ps[2].as_str());
    match parse_usize(ultimo.as_str()) {
        Some(n) => Ok((recortar(ps[0].as_str()), recortar(ps[1].as_str()), n)),
        None => Err(ErroresServer::ParserError),
    }
}

/// Las palabras unidas con un espacio, como `join(" ")`.
pub open spec fn unir_con_espacios(ws: Seq<Seq<char>>) -> Seq<char>
    decreases ws.len(),
{
    if ws.len() == 0 {
        Seq::empty()
    } else if ws.len() == 1 {
        ws[0]
    } else {
        unir_con_espacios(ws.drop_last()) + " "@ + ws.last()
    }
}

/// El mensaje guardado en un tramo de la línea CSV: su primera palabra es el
/// id y el resto, unido con espacios, es el texto; `None` si no empieza con un id.
pub open spec fn mensaje_de_tramo(t: Seq<char>) -> Option<(Seq<char>, usize)> {
    let ws = palabras(t);
    if ws.len() == 0 {
        None
    } else {
        match parse_usize_spec(ws[0]) {
            Some(id) => Some((unir_con_espacios(ws.skip(1)), id)),
            None => None,
        }
    }
}

/// Los mensajes de los tramos que los tienen, en orden.
pub open spec fn mensajes_de_tramos(ts: Seq<Seq<char>>) -> Seq<(Seq<char>, usize)>
    decreases ts.len(),
{
    if ts.len() == 0 {
        Seq::empty()
    } else {
        match mensaje_de_tramo(ts.last()) {
            Some(m) => mensajes_de_tramos(ts.drop_last()).push(m),
            None => mensajes_de_tramos(ts.drop_last()),
        }
    }
}

/// Los datos de un JetStream en una línea CSV: nombre y subject recortados y
/// los mensajes guardados; `None` si la línea no tiene nombre y subject.
pub open spec fn datos_jetstream(linea: Seq<char>) -> Option<
    (Seq<char>, Seq<char>, Seq<(Seq<char>, usize)>),
> {
    let ps = dividir(linea, ',');
    if ps.len() < 2 {
        None
    } else {
        Some((recorte(ps[0]), recorte(ps[1]), mensajes_de_tramos(ps.skip(2))))
    }
}

/// Une las palabras con un espacio.
fn unir_palabras(ws: &Vec<String>, desde: usize) -> (r: String)
    requires
        desde <= ws@.len(),
    ensures
        r@ == unir_con_espacios(vistas(ws@).skip(desde as int)),
{
    let ghost v = vistas(ws@).skip(desde as int);
    let mut s = String::new();
    let mut i = desde;
    while i < ws.len()
        invariant
            desde <= i <= ws@.len(),
            v == vistas(ws@).skip(desde as int),
            s@ == unir_con_espacios(v.take(i - desde)),
        decreases ws@.len() - i,
    {
        assert(v.take(i + 1 - desde).drop_last() =~= v.take(i - desde));
        assert(v.take(i + 1 - desde).last() == ws@[i as int]@);
        if i > desde {
            s.append(" ");
        } else {
            assert(v.take(1)[0] == ws@[i as int]@);
        }
        s.append(ws[i].as_str());
        i = i + 1;
    }
    assert(v.take(ws@.len() - desde) =~= v);
    s
}

/// Parsea los datos de un JetStream tomando una línea del archivo CSV.
pub fn parse_js_data(line: &str) -> (r: Result<(String, String, Vec<(String, usize)>), ErroresServer>)
    ensures
        match datos_jetstream(line@) {
            Some((n, s, ms)) => r matches Ok((rn, rs, rms)) && rn@ == n && rs@ == s
                && vistas_mensajes(rms@) == ms,
            None => r matches Err(e) && e is ParserError,
        },
{
    let ps = dividir_exec(line, ',');
    let ghost vs = vistas(ps@);
    if ps.len() < 2 {
        return Err(ErroresServer::ParserError);
    }
    let mut mensajes: Vec<(String, usize)> = Vec::new();
    let mut i: usize = 2;
    while i < ps.len()
        invariant
            vs == vistas(ps@),
            vs == dividir(line@, ','),
            2 <= i <= ps@.len(),
            vistas_mensajes(mensajes@) == mensajes_de_tramos(vs.skip(2).take(i - 2)),
        decreases ps@.len() - i,
    {
        assert(vs.skip(2).take(i + 1 - 2).drop_last() =~= vs.skip(2).take(i - 2));
        assert(vs.skip(2).take(i + 1 - 2).last() == ps@[i as int]@);
        let ws = palabras_exec(ps[i].as_str());
        if ws.len() > 0 {
            assert(vistas(ws@)[0] == ws@[0]@);
            match parse_usize(ws[0].as_str()) {
                Some(id) => {
                    let texto = unir_palabras(&ws, 1);
                    let ghost antes = mensajes@;
                    mensajes.push((texto, id));
                    assert(vistas_mensajes(mensajes@) =~= vistas_mensajes(antes).push(
                        (texto@, id),
                    ));
                },
                None => {},
            }
        }
        i = i + 1;
    }
    assert(vs.skip(2).take(ps@.len() - 2) =~= vs.skip(2));
    Ok((recortar(ps[0].as_str()), recortar(ps[1].as_str()), mensajes))
}

/// La línea `l`, o `nueva` si la primera columna de `l`, recortada, es `clave`.
pub open spec fn linea_o_nueva(l: Seq<char>, nueva: Seq<char>, clave: Seq<char>) -> Seq<char> {
    if recorte(dividir(l, ',')[0]) == clave {
        nueva
    } else {
        l
    }
}

/// Las líneas del archivo tras guardar `nueva` con clave `clave`: cada línea
/// cuya primera columna, recortada, es la clave se reemplaza por `nueva`; si
/// ninguna lo es, `nueva` se agrega al final.
pub open spec fn lineas_actualizadas(
    lineas: Seq<Seq<char>>,
    nueva: Seq<char>,
    clave: Seq<char>,
) -> Seq<Seq<char>> {
    let reemplazadas = lineas.map_values(|l: Seq<char>| linea_o_nueva(l, nueva, clave));
    if exists|i: int| 0 <= i < lineas.len() && recorte(dividir(#[trigger] lineas[i], ',')[0]) == clave {
        reemplazadas
    } else {
        reemplazadas.push(nueva)
    }
}

/// Actualiza el registro con clave `key` entre las líneas de un archivo CSV.
pub fn update_csv_lines(lines: Vec<String>, updated_data: String, key: String) -> (r: Vec<String>)
    ensures
        vistas(r@) == lineas_actualizadas(vistas(lines@), updated_data@, key@),
{
    let ghost ls = vistas(lines@);
    let mut r: Vec<String> = Vec::new();
    let mut found = false;
    for i in 0..lines.len()
        invariant
            ls == vistas(lines@),
            r@.len() == i,
            forall|j: int| 0 <= j < i ==> (#[trigger] r@[j])@ == linea_o_nueva(ls[j], updated_data@, key@),
            found == (exists|j: int|
                0 <= j < i && recorte(dividir(#[trigger] ls[j], ',')[0]) == key@),
    {
        let ps = dividir_exec(lines[i].as_str(), ',');
        assert(vistas(ps@)[0] == ps@[0]@);
        assert(ls[i as int] == lines@[i as int]@);
        let nombre = recortar(ps[0].as_str());
        assert(nombre@ == recorte(dividir(ls[i as int], ',')[0]));
        let ghost antes = r@;
        let ghost f_antes = found;
        if textos_iguales(key.as_str(), nombre.as_str()) {
            r.push(updated_data.clone());
            found = true;
        } else {
            r.push(lines[i].clone());
        }
        assert(r@[i as int]@ == linea_o_nueva(ls[i as int], updated_data@, key@));
        assert(found == (exists|j: int|
            0 <= j < i + 1 && recorte(dividir(#[trigger] ls[j], ',')[0]) == key@)) by {
            if exists|j: int| 0 <= j < i + 1 && recorte(dividir(#[trigger] ls[j], ',')[0]) == key@ {
                let j = choose|j: int|
                    0 <= j < i + 1 && recorte(dividir(#[trigger] ls[j], ',')[0]) == key@;
                if j < i {
                    assert(f_antes);
                }
            }
        }
    }
    let ghost reemplazadas = ls.map_values(|l: Seq<char>| linea_o_nueva(l, updated_data@, key@));
    assert(vistas(r@) =~= reemplazadas);
    if !found {
        let ghost antes = r@;
        r.push(updated_data);
        assert(vistas(r@) =~= vistas(antes).push(r@[antes.len() as int]@)) by {
            assert(r@ =~= antes.push(r@[antes.len() as int]));
        }
    }
    r
}

/// Guardar dos veces el mismo registro deja las líneas como guardarlo una vez
/// (si la línea nueva tiene la clave con que se guarda).
pub proof fn ley_actualizar_idempotente(lineas: Seq<Seq<char>>, nueva: Seq<char>, clave: Seq<char>)
    requires
        recorte(dividir(nueva, ',')[0]) == clave,
    ensures
        lineas_actualizadas(lineas_actualizadas(lineas, nueva, clave), nueva, clave)
            == lineas_actualizadas(lineas, nueva, clave),
{
    let l1 = lineas_actualizadas(lineas, nueva, clave);
    let f = |l: Seq<char>| linea_o_nueva(l, nueva, clave);
    assert forall|i: int| 0 <= i < l1.len() implies #[trigger] linea_o_nueva(l1[i], nueva, clave)
        == l1[i] by {
        if i < lineas.len() {
            assert(l1[i] == linea_o_nueva(lineas[i], nueva, clave));
        }
    }
    assert(l1.map_values(f) =~= l1);
    let hay = exists|i: int| 0 <= i < l1.len() && recorte(dividir(#[trigger] l1[i], ',')[0]) == clave;
    if exists|i: int| 0 <= i < lineas.len() && recorte(dividir(#[trigger] lineas[i], ',')[0]) == clave {
        let i = choose|i: int| 0 <= i < lineas.len() && recorte(dividir(#[trigger] lineas[i], ',')[0]) == clave;
        assert(l1[i] == nueva);
        assert(recorte(dividir(l1[i], ',')[0]) == clave);
    } else {
        assert(l1[l1.len() - 1] == nueva);
        assert(recorte(dividir(l1[l1.len() - 1], ',')[0]) == clave);
    }
    assert(hay);
}

/// Los mensajes de un JetStream están numerados en orden creciente y por
/// debajo del id del próximo.
pub open spec fn numeracion_valida(js: JetStreamV) -> bool {
    &&& forall|i: int| 0 <= i < js.messages.len() ==> (#[trigger] js.messages[i]).1 < js.id_counter
    &&& forall|i: int, j: int|
        0 <= i < j < js.messages.len() ==> (#[trigger] js.messages[i]).1 < (#[trigger] js.messages[j]).1
}

/// Almacenar un mensaje conserva la numeración: el nuevo mensaje lleva el id
/// siguiente, mayor que los anteriores.
pub proof fn ley_numeracion_creciente(js: JetStreamV, msg: Seq<char>)
    requires
        numeracion_valida(js),
        js.id_counter < usize::MAX,
    ensures
        numeracion_valida(con_mensaje(js, msg)),
        con_mensaje(js, msg).messages.last() == (msg, js.id_counter),
{
    let js2 = con_mensaje(js, msg);
    assert forall|i: int| 0 <= i < js2.messages.len() implies (#[trigger] js2.messages[i]).1 < js2.id_counter by {
        if i < js.messages.len() {
            assert(js2.messages[i] == js.messages[i]);
        }
    }
    assert forall|i: int, j: int|
        0 <= i < j < js2.messages.len() implies (#[trigger] js2.messages[i]).1 < (#[trigger] js2.messages[j]).1 by {
        assert(js2.messages[i] == js.messages[i]);
        if j < js.messages.len() {
            assert(js2.messages[j] == js.messages[j]);
        }
    }
}

} // verus!
