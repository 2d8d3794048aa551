//! El ejecutor de comandos del servidor: recibe cada mensaje de un cliente
//! (o de un consumidor de JetStream) y decide el nuevo estado (suscripciones,
//! permisos, logs, streams) y las acciones a realizar (escrituras a clientes,
//! registros en logs, archivos y consumidores).
use vstd::prelude::*;
use vstd::string::*;
use vstd::utf8::*;
use crate::texto::{lema_dividir_tres, lema_parse_decimal, sin_prefijos, quitar_prefijos, vistas, decimal, usize_a_texto, dividir, dividir_exec, palabras, palabras_exec, recorte, recortar, parse_usize, parse_usize_spec, textos_iguales, empieza, empieza_con, dividir_crlf};
use crate::errores::{ErroresServer, ErrorV, texto_error, vista_resultado};
use crate::acciones::{Accion, AccionV, vistas_acciones, agregar};
use crate::logger::{Logger, LogType};
use crate::usuarios::{User, UsuarioV, UserPermissions, PermisosV, UsersRepository, algun_patron_acepta};
use crate::suscripcion::{Suscription, SuscripcionV};
use crate::subject::{coincide_subject, error_de_subject, validate_subject};
use crate::jetstream::{JetStream, JetStreamV, ConsumidorV, PushConsumer, consumidor_de_json, con_mensaje, acciones_almacenar, guardar_datos, guardar_relacion, linea_consumidor, posicion_consumidor, jetstream_de_json, RESOURCES_PATH, JETSTREAM_DATA_PATH, CONSUMERS_PATH, JETSTREAM_CONSUMERS_PATH};
use crate::json::{campo_texto_json, campo_texto};
use crate::cliente::comando_ack;

verus! {

/// El primer valor guardado con la clave `id`.
pub open spec fn buscar<T>(s: Seq<(usize, T)>, id: usize) -> Option<T>
    decreases s.len(),
{
    if s.len() == 0 {
        None
    } else if s[0].0 == id {
        Some(s[0].1)
    } else {
        buscar(s.drop_first(), id)
    }
}

/// Guarda `v` con la clave `id`: reemplaza el primer valor con esa clave o,
/// si no hay ninguno, lo agrega al final.
pub open spec fn poner<T>(s: Seq<(usize, T)>, id: usize, v: T) -> Seq<(usize, T)>
    decreases s.len(),
{
    if s.len() == 0 {
        seq![(id, v)]
    } else if s[0].0 == id {
        s.update(0, (id, v))
    } else {
        seq![s[0]] + poner(s.drop_first(), id, v)
    }
}

/// Buscar una clave después de guardar un valor con ella da ese valor, y las
/// demás claves siguen dando lo que daban.
pub proof fn ley_buscar_poner<T>(s: Seq<(usize, T)>, id: usize, v: T, otra: usize)
    ensures
        buscar(poner(s, id, v), id) == Some(v),
        otra != id ==> buscar(poner(s, id, v), otra) == buscar(s, otra),
    decreases s.len(),
{
    if s.len() == 0 {
        let p = seq![(id, v)];
        assert(poner(s, id, v) == p);
        assert(p.drop_first() =~= Seq::<(usize, T)>::empty());
        assert(buscar(p.drop_first(), otra) is None);
    } else if s[0].0 == id {
        let p = s.update(0, (id, v));
        assert(poner(s, id, v) == p);
        assert(p[0] == (id, v));
        assert(p.drop_first() =~= s.drop_first());
    } else {
        let p = seq![s[0]] + poner(s.drop_first(), id, v);
        ley_buscar_poner(s.drop_first(), id, v, otra);
        assert(poner(s, id, v) == p);
        assert(p[0] == s[0]);
        assert(p.drop_first() =~= poner(s.drop_first(), id, v));
    }
}

/// Una escritura al cliente.
pub open spec fn escribir(cliente: usize, msg: Seq<char>) -> AccionV {
    AccionV::Escribir { cliente, msg }
}

/// La respuesta `+OK` al cliente.
pub open spec fn ok(cliente: usize) -> AccionV {
    escribir(cliente, "+OK\r\n"@)
}

/// El registro de `msg` en el log del cliente, si tiene uno.
pub open spec fn log_de(
    logs: Seq<(usize, Seq<char>)>,
    cliente: usize,
    tipo: LogType,
    msg: Seq<char>,
) -> Seq<AccionV> {
    match buscar(logs, cliente) {
        Some(f) => seq![AccionV::Log { archivo: f, tipo, msg }],
        None => Seq::empty(),
    }
}

/// El envío de un error al cliente: `-ERR texto` si está conectado; si no,
/// ninguna acción y el error `StreamNotFound`.
pub open spec fn enviar_error(conectados: Seq<usize>, cliente: usize, texto: Seq<char>) -> (
    Seq<AccionV>,
    Result<(), ErrorV>,
) {
    if conectados.contains(cliente) {
        (seq![escribir(cliente, "-ERR "@ + texto + "\r\n"@)], Ok(()))
    } else {
        (Seq::empty(), Err(ErrorV::StreamNotFound))
    }
}

/// El error de no encontrar la conexión del cliente.
pub open spec fn sin_conexion() -> ErrorV {
    ErrorV::InternalError("Error al acceder al stream del cliente"@)
}

/// Indica si `cliente` está en la lista.
pub fn contiene(v: &Vec<usize>, cliente: usize) -> (r: bool)
    ensures
        r == v@.contains(cliente),
{
    for i in 0..v.len()
        invariant
            forall|j: int| 0 <= j < i ==> v@[j] != cliente,
    {
        if v[i] == cliente {
            return true;
        }
    }
    false
}

/// La fase en que un `HPUB` junta sus líneas.
#[derive(Debug)]
pub enum FaseHpub {
    /// Juntando las líneas de encabezado: bytes contados y encabezado hasta ahora.
    Encabezado { acum: usize, header: String, primera: bool },
    /// Sin encabezado: se descarta una línea.
    SinEncabezado,
    /// El cuerpo: si `saltar`, se descarta una línea; si no, la siguiente es la carga.
    Cuerpo { header: String, saltar: bool },
}

/// Vista de la fase de un `HPUB`.
pub enum FaseV {
    Encabezado { acum: usize, header: Seq<char>, primera: bool },
    SinEncabezado,
    Cuerpo { header: Seq<char>, saltar: bool },
}

/// Un `HPUB` en curso: quién lo envió, a qué subject, con qué respuesta y tamaños.
#[derive(Debug)]
pub struct Hpub {
    cliente: usize,
    subject: String,
    reply_to: Option<String>,
    bytes_header: usize,
    total_bytes: usize,
    fase: FaseHpub,
}

/// Vista de un `HPUB` en curso.
pub struct HpubV {
    pub cliente: usize,
    pub subject: Seq<char>,
    pub reply_to: Option<Seq<char>>,
    pub bytes_header: usize,
    pub total_bytes: usize,
    pub fase: FaseV,
}

impl View for FaseHpub {
    type V = FaseV;

    open spec fn view(&self) -> FaseV {
        match self {
            FaseHpub::Encabezado { acum, header, primera } => FaseV::Encabezado {
                acum: *acum,
                header: header@,
                primera: *primera,
            },
            FaseHpub::SinEncabezado => FaseV::SinEncabezado,
            FaseHpub::Cuerpo { header, saltar } => FaseV::Cuerpo { header: header@, saltar: *saltar },
        }
    }
}

/// Vista de un texto opcional.
pub open spec fn vista_opcional(o: Option<String>) -> Option<Seq<char>> {
    match o {
        Some(s) => Some(s@),
        None => None,
    }
}

impl View for Hpub {
    type V = HpubV;

    closed spec fn view(&self) -> HpubV {
        HpubV {
            cliente: self.cliente,
            subject: self.subject@,
            reply_to: vista_opcional(self.reply_to),
            bytes_header: self.bytes_header,
            total_bytes: self.total_bytes,
            fase: self.fase@,
        }
    }
}

/// Vista del ejecutor: permisos y log de cada cliente, streams, suscripciones,
/// si se exige autenticación y el `HPUB` en curso.
pub struct EjecutorV {
    pub permisos: Seq<(usize, PermisosV)>,
    pub logs: Seq<(usize, Seq<char>)>,
    pub streams: Seq<JetStreamV>,
    pub suscripciones: Seq<SuscripcionV>,
    pub auth_required: bool,
    pub hpub: Option<HpubV>,
}

/// Lo que produce un paso del ejecutor: el nuevo estado, las acciones y el resultado.
pub struct PasoV {
    pub estado: EjecutorV,
    pub acciones: Seq<AccionV>,
    pub resultado: Result<(), ErrorV>,
}

/// Todo stream tiene al menos un subject (el primero nombra su línea de datos).
pub open spec fn streams_validos(e: EjecutorV) -> bool {
    forall|i: int| 0 <= i < e.streams.len() ==> (#[trigger] e.streams[i]).subjects.len() > 0
}

/// Si el cliente tiene permiso según la regla dada sobre sus permisos: siempre
/// si no se exige autenticación; si se exige, sólo si tiene permisos y la regla los acepta.
pub open spec fn permitido(e: EjecutorV, cliente: usize, suscribir: bool, subject: Seq<char>) -> bool {
    if !e.auth_required {
        true
    } else {
        match buscar(e.permisos, cliente) {
            Some(p) => if suscribir {
                algun_patron_acepta(p.subscribe, subject)
            } else {
                algun_patron_acepta(p.publish, subject)
            },
            None => false,
        }
    }
}

/// Un paso sin cambio de estado.
pub open spec fn sin_cambios(e: EjecutorV, acciones: Seq<AccionV>, r: Result<(), ErrorV>) -> PasoV {
    PasoV { estado: e, acciones, resultado: r }
}

/// Un paso que sólo envía un error al cliente.
pub open spec fn solo_error(e: EjecutorV, cs: Seq<usize>, c: usize, texto: Seq<char>) -> PasoV {
    sin_cambios(e, enviar_error(cs, c, texto).0, enviar_error(cs, c, texto).1)
}

/// `SUB subject sid`: valida y, si el cliente tiene permiso, lo suscribe.
pub open spec fn paso_sub(e: EjecutorV, cs: Seq<usize>, c: usize, msg: Seq<char>) -> PasoV {
    let ps = palabras(msg);
    if ps.len() > 3 || ps.len() <= 1 {
        let err = ErrorV::InvalidSubject(
            if ps.len() > 3 {
                "hay mas de 3 parametros en subject del SUB"@
            } else {
                "hay menos de 2 parametros en el subject del SUB"@
            },
        );
        let (acts, r) = enviar_error(cs, c, texto_error(err));
        sin_cambios(
            e,
            log_de(e.logs, c, LogType::Error, texto_error(err)) + acts,
            if r is Ok {
                Err(err)
            } else {
                r
            },
        )
    } else {
        let subject = ps[0];
        match error_de_subject(subject) {
            Some(m) => {
                let err = ErrorV::InvalidSubject(m);
                let (acts, r) = enviar_error(cs, c, texto_error(err));
                if r is Ok {
                    sin_cambios(e, acts + log_de(e.logs, c, LogType::Error, texto_error(err)), Err(err))
                } else {
                    sin_cambios(e, acts, r)
                }
            },
            None => if !permitido(e, c, true, subject) {
                solo_error(e, cs, c, texto_error(ErrorV::SubscriptionPermissionsViolation(subject)))
            } else {
                let e2 = EjecutorV {
                    suscripciones: e.suscripciones.push(
                        SuscripcionV { connection_id: c, subject, max_msgs: None, sid: ps[1] },
                    ),
                    ..e
                };
                if !cs.contains(c) {
                    PasoV { estado: e2, acciones: Seq::empty(), resultado: Err(sin_conexion()) }
                } else {
                    PasoV {
                        estado: e2,
                        acciones: seq![ok(c)] + log_de(e.logs, c, LogType::Info, "SUB "@ + subject),
                        resultado: Ok(()),
                    }
                }
            },
        }
    }
}

/// Los argumentos de un `UNSUB`: el sid y, si se dio, la cantidad máxima de mensajes.
pub open spec fn argumentos_unsub(msg: Seq<char>) -> Option<(Seq<char>, Option<usize>)> {
    let ps = palabras(msg);
    if ps.len() == 1 {
        Some((ps[0], None))
    } else if ps.len() == 2 {
        match parse_usize_spec(ps[1]) {
            Some(n) => Some((ps[0], Some(n))),
            None => None,
        }
    } else {
        None
    }
}

/// La primera suscripción del cliente con ese sid.
pub open spec fn posicion_sub(subs: Seq<SuscripcionV>, sid: Seq<char>, c: usize) -> Option<int> {
    if exists|i: int| 0 <= i < subs.len() && subs[i].sid == sid && subs[i].connection_id == c {
        Some(
            choose|i: int|
                0 <= i < subs.len() && subs[i].sid == sid && subs[i].connection_id == c && forall|
                    j: int,
                | 0 <= j < i ==> !(subs[j].sid == sid && subs[j].connection_id == c),
        )
    } else {
        None
    }
}

/// `UNSUB sid [max]`: quita la suscripción o le fija un máximo de mensajes.
pub open spec fn paso_unsub(e: EjecutorV, cs: Seq<usize>, c: usize, msg: Seq<char>) -> PasoV {
    match argumentos_unsub(msg) {
        None => {
            let (acts, r) = enviar_error(
                cs,
                c,
                texto_error(ErrorV::InvalidSubject(texto_error(ErrorV::MalformedUnsubError))),
            );
            if r is Ok {
                sin_cambios(
                    e,
                    acts + log_de(
                        e.logs,
                        c,
                        LogType::Error,
                        texto_error(ErrorV::MalformedUnsubError),
                    ),
                    Ok(()),
                )
            } else {
                sin_cambios(e, acts, r)
            }
        },
        Some((sid, max)) => match posicion_sub(e.suscripciones, sid, c) {
            None => {
                let t = texto_error(
                    ErrorV::InvalidSubject("no hay coincidencias para el SID recibido"@),
                );
                let (acts, r) = enviar_error(cs, c, t);
                sin_cambios(e, log_de(e.logs, c, LogType::Error, t) + acts, r)
            },
            Some(i) => {
                let subs = match max {
                    Some(n) => e.suscripciones.update(
                        i,
                        SuscripcionV { max_msgs: Some(n), ..e.suscripciones[i] },
                    ),
                    None => e.suscripciones.remove(i),
                };
                let e2 = EjecutorV { suscripciones: subs, ..e };
                if !cs.contains(c) {
                    PasoV { estado: e2, acciones: Seq::empty(), resultado: Err(sin_conexion()) }
                } else {
                    PasoV {
                        estado: e2,
                        acciones: seq![ok(c)] + match max {
                            Some(n) => log_de(
                                e.logs,
                                c,
                                LogType::Info,
                                "UNSUB: sid:"@ + sid + " max_msg:"@ + decimal(n as nat),
                            ),
                            None => Seq::empty(),
                        },
                        resultado: Ok(()),
                    }
                }
            },
        },
    }
}

/// El texto de la respuesta opcional en un `MSG`/`HMSG`, seguido de un espacio.
pub open spec fn texto_reply(reply: Option<Seq<char>>) -> Seq<char> {
    match reply {
        Some(r) => r + " "@,
        None => Seq::empty(),
    }
}

/// El comienzo de un mensaje entregado, antes del sid: `MSG subject ` o `HMSG subject `.
pub open spec fn cabeza(tipo: Seq<char>, subject: Seq<char>) -> Seq<char> {
    tipo + subject + " "@
}

/// El final de un `MSG`, tras el sid.
pub open spec fn cola_msg(reply: Option<Seq<char>>, bytes: Seq<char>, payload: Seq<char>) -> Seq<char> {
    " "@ + texto_reply(reply) + bytes + "\r\n"@ + payload + "\r\n"@
}

/// El final de un `HMSG`, tras el sid.
pub open spec fn cola_hmsg(
    reply: Option<Seq<char>>,
    bytes_header: usize,
    total_bytes: usize,
    header: Seq<char>,
    payload: Seq<char>,
) -> Seq<char> {
    " "@ + texto_reply(reply) + decimal(bytes_header as nat) + " "@ + decimal(total_bytes as nat)
        + "\r\n"@ + header + "\r\n\r\n"@ + payload + "\r\n"@
}

/// El `MSG` que recibe la suscripción `sid`:
/// `MSG subject sid [reply] bytes\r\npayload\r\n`.
pub open spec fn mensaje_msg(
    subject: Seq<char>,
    sid: Seq<char>,
    reply: Option<Seq<char>>,
    bytes: Seq<char>,
    payload: Seq<char>,
) -> Seq<char> {
    cabeza("MSG "@, subject) + sid + cola_msg(reply, bytes, payload)
}

/// Guarda el mensaje en cada stream cuyo subject coincide, en orden: los
/// streams resultantes y las acciones de cada uno.
pub open spec fn almacenar(streams: Seq<JetStreamV>, subject: Seq<char>, payload: Seq<char>) -> (
    Seq<JetStreamV>,
    Seq<AccionV>,
)
    decreases streams.len(),
{
    if streams.len() == 0 {
        (Seq::empty(), Seq::empty())
    } else {
        let (ss, acts) = almacenar(streams.drop_last(), subject, payload);
        let js = streams.last();
        if algun_patron_acepta(js.subjects, subject) {
            (ss.push(con_mensaje(js, payload)), acts + acciones_almacenar(js, payload))
        } else {
            (ss.push(js), acts)
        }
    }
}

/// La suscripción tras recibir un mensaje: le queda uno menos, si tenía máximo.
pub open spec fn descontar(s: SuscripcionV) -> SuscripcionV {
    SuscripcionV {
        max_msgs: match s.max_msgs {
            Some(m) => Some((m - 1) as usize),
            None => None,
        },
        ..s
    }
}

/// Entrega a cada suscripción conectada cuyo subject coincide el mensaje
/// `cabeza + sid + cola` (registrado en el log dado): las suscripciones
/// resultantes y las entregas, en orden.
pub open spec fn entregar(
    subs: Seq<SuscripcionV>,
    cs: Seq<usize>,
    subject: Seq<char>,
    log: Option<Seq<char>>,
    cab: Seq<char>,
    cola: Seq<char>,
) -> (Seq<SuscripcionV>, Seq<AccionV>)
    decreases subs.len(),
{
    if subs.len() == 0 {
        (Seq::empty(), Seq::empty())
    } else {
        let (ss, acts) = entregar(subs.drop_last(), cs, subject, log, cab, cola);
        let s = subs.last();
        if coincide_subject(s.subject, subject) && cs.contains(s.connection_id) {
            (
                ss.push(descontar(s)),
                acts.push(AccionV::Entregar { cliente: s.connection_id, msg: cab + s.sid + cola, log }),
            )
        } else {
            (ss.push(s), acts)
        }
    }
}

/// Las suscripciones a las que les quedan mensajes por recibir.
pub open spec fn sin_agotadas(subs: Seq<SuscripcionV>) -> Seq<SuscripcionV> {
    subs.filter(|s: SuscripcionV| s.max_msgs != Some(0usize))
}

/// Publica `payload` en `subject`: lo guarda en los streams que coinciden,
/// lo entrega a las suscripciones y responde `+OK` si quien publica es un cliente.
pub open spec fn publicar(
    e: EjecutorV,
    cs: Seq<usize>,
    c: usize,
    subject: Seq<char>,
    bytes: Seq<char>,
    reply: Option<Seq<char>>,
    payload: Seq<char>,
) -> PasoV {
    let consumidor = c == 0;
    let (streams2, acts1) = almacenar(e.streams, subject, payload);
    let (subs2, acts2) = entregar(
        e.suscripciones,
        cs,
        subject,
        buscar(e.logs, c),
        cabeza("MSG "@, subject),
        cola_msg(reply, bytes, payload),
    );
    let e2 = EjecutorV { streams: streams2, suscripciones: subs2, ..e };
    if !consumidor && !cs.contains(c) {
        PasoV { estado: e2, acciones: acts1 + acts2, resultado: Err(sin_conexion()) }
    } else {
        PasoV {
            estado: EjecutorV { suscripciones: sin_agotadas(subs2), ..e2 },
            acciones: acts1 + acts2 + if consumidor {
                Seq::empty()
            } else {
                seq![ok(c)]
            },
            resultado: Ok(()),
        }
    }
}

/// Los argumentos de un `PUB`: subject, bytes y respuesta, si son dos o tres.
pub open spec fn argumentos_pub(msg: Seq<char>) -> Option<(Seq<char>, Seq<char>, Option<Seq<char>>)> {
    let sep = dividir(dividir_crlf(msg, '\r', '\n')[0], ' ');
    if sep.len() == 2 {
        Some((sep[0], sep[1], None))
    } else if sep.len() == 3 {
        Some((sep[0], sep[2], Some(sep[1])))
    } else {
        None
    }
}

/// `PUB subject [reply] bytes\r\npayload\r\n`.
pub open spec fn paso_pub(e: EjecutorV, cs: Seq<usize>, c: usize, msg: Seq<char>) -> PasoV {
    let partes = dividir_crlf(msg, '\r', '\n');
    match argumentos_pub(msg) {
        None => {
            let n = dividir(partes[0], ' ').len();
            let t = texto_error(
                ErrorV::InvalidSubject(
                    "El subject "@ + (if n <= 1 {
                        "tiene menos de dos parametros"@
                    } else {
                        "tiene mas de tres parametros"@
                    }) + " ademas del PUB"@,
                ),
            );
            sin_cambios(e, enviar_error(cs, c, t).0, Ok(()))
        },
        Some((subject, bytes, reply)) => if !(c == 0 || permitido(e, c, false, subject)) {
            let t = texto_error(ErrorV::PublishPermissionsViolation(subject));
            let (acts, r) = enviar_error(cs, c, t);
            sin_cambios(e, log_de(e.logs, c, LogType::Error, t) + acts, r)
        } else {
            publicar(
                e,
                cs,
                c,
                subject,
                bytes,
                reply,
                if bytes == "0"@ {
                    Seq::empty()
                } else {
                    partes[1]
                },
            )
        },
    }
}

/// Los argumentos de un `HPUB`: subject, respuesta, bytes de encabezado y totales, como texto.
pub open spec fn argumentos_hpub(msg: Seq<char>) -> Option<
    (Seq<char>, Option<Seq<char>>, Seq<char>, Seq<char>),
> {
    let sep = dividir(msg, ' ');
    if sep.len() == 3 {
        Some((sep[0], None, sep[1], sep[2]))
    } else if sep.len() == 4 {
        Some((sep[0], Some(sep[1]), sep[2], sep[3]))
    } else {
        None
    }
}

/// `HPUB subject [reply] header_bytes total_bytes`: si todo es válido, empieza a
/// juntar las líneas de encabezado y la carga.
pub open spec fn paso_hpub(e: EjecutorV, cs: Seq<usize>, c: usize, msg: Seq<char>) -> PasoV {
    match argumentos_hpub(msg) {
        None => solo_error(
            e,
            cs,
            c,
            texto_error(
                ErrorV::InvalidSubject(
                    if dividir(msg, ' ').len() > 4 {
                        "argumentos de mas (mas de 4)"@
                    } else {
                        "argumentos de menos (menos de 3)"@
                    },
                ),
            ),
        ),
        Some((subject, reply, hb, tb)) => match (parse_usize_spec(tb), parse_usize_spec(hb)) {
            (None, _) => sin_cambios(
                e,
                Seq::empty(),
                Err(ErrorV::InternalError("Error al parsear el String total_bytes en hpublish"@)),
            ),
            (Some(_), None) => sin_cambios(
                e,
                Seq::empty(),
                Err(ErrorV::InternalError("Error al parsear el String headers_bytes en hpublish"@)),
            ),
            (Some(t), Some(h)) => if !permitido(e, c, false, subject) {
                let txt = texto_error(ErrorV::PublishPermissionsViolation(subject));
                let (acts, r) = enviar_error(cs, c, txt);
                sin_cambios(e, log_de(e.logs, c, LogType::Error, txt) + acts, r)
            } else {
                sin_cambios(
                    EjecutorV {
                        hpub: Some(
                            HpubV {
                                cliente: c,
                                subject,
                                reply_to: reply,
                                bytes_header: h,
                                total_bytes: t,
                                fase: if h > 0 {
                                    FaseV::Encabezado { acum: 0, header: Seq::empty(), primera: true }
                                } else {
                                    FaseV::SinEncabezado
                                },
                            },
                        ),
                        ..e
                    },
                    Seq::empty(),
                    Ok(()),
                )
            },
        },
    }
}

/// Un mensaje recibido mientras un `HPUB` junta sus líneas: es una línea de
/// encabezado, una línea descartada o la carga, tras la cual se entrega el `HMSG`.
pub open spec fn paso_linea_hpub(e: EjecutorV, cs: Seq<usize>, h: HpubV, m: Seq<char>) -> PasoV {
    match h.fase {
        FaseV::Encabezado { acum, header, primera } => {
            let acum2 = (acum + encode_utf8(m).len() + 2) as usize;
            let header2 = if primera {
                m
            } else {
                header + "\r\n"@ + m
            };
            let fase = if acum2 + 2 == h.bytes_header {
                FaseV::Cuerpo { header: header2, saltar: true }
            } else {
                FaseV::Encabezado { acum: acum2, header: header2, primera: false }
            };
            sin_cambios(EjecutorV { hpub: Some(HpubV { fase, ..h }), ..e }, Seq::empty(), Ok(()))
        },
        FaseV::SinEncabezado => sin_cambios(
            EjecutorV {
                hpub: Some(HpubV { fase: FaseV::Cuerpo { header: Seq::empty(), saltar: true }, ..h }),
                ..e
            },
            Seq::empty(),
            Ok(()),
        ),
        FaseV::Cuerpo { header, saltar } => if saltar {
            sin_cambios(
                EjecutorV {
                    hpub: Some(HpubV { fase: FaseV::Cuerpo { header, saltar: false }, ..h }),
                    ..e
                },
                Seq::empty(),
                Ok(()),
            )
        } else {
            let payload = if h.total_bytes > h.bytes_header {
                m
            } else {
                Seq::empty()
            };
            let (subs2, acts) = entregar(
                e.suscripciones,
                cs,
                h.subject,
                buscar(e.logs, h.cliente),
                cabeza("HMSG "@, h.subject),
                cola_hmsg(h.reply_to, h.bytes_header, h.total_bytes, header, payload),
            );
            PasoV {
                estado: EjecutorV { suscripciones: sin_agotadas(subs2), hpub: None, ..e },
                acciones: acts,
                resultado: Ok(()),
            }
        },
    }
}

/// La respuesta a `PING` (`PONG`) o el envío de `PING`, registrados en el log.
pub open spec fn paso_respuesta(e: EjecutorV, cs: Seq<usize>, c: usize, texto: Seq<char>) -> PasoV {
    if !cs.contains(c) {
        sin_cambios(e, Seq::empty(), Err(ErrorV::StreamNotFound))
    } else {
        sin_cambios(
            e,
            seq![escribir(c, texto + "\r\n"@)] + log_de(e.logs, c, LogType::Info, texto),
            Ok(()),
        )
    }
}

/// Las suscripciones que no son del cliente.
pub open spec fn sin_cliente(subs: Seq<SuscripcionV>, c: usize) -> Seq<SuscripcionV> {
    subs.filter(|s: SuscripcionV| s.connection_id != c)
}

/// `SHUTDOWN`: quita las suscripciones del cliente y cierra su conexión.
pub open spec fn paso_shutdown(e: EjecutorV, cs: Seq<usize>, c: usize) -> PasoV {
    let e2 = EjecutorV { suscripciones: sin_cliente(e.suscripciones, c), ..e };
    if cs.contains(c) {
        sin_cambios(
            e2,
            seq![AccionV::Cerrar { cliente: c }] + log_de(e.logs, c, LogType::Info, "SHUTDOWN"@),
            Ok(()),
        )
    } else {
        sin_cambios(
            e2,
            log_de(e.logs, c, LogType::Warn, "No se encontro el cliente para hacer el shutdown"@),
            Ok(()),
        )
    }
}

/// El primer stream con ese nombre.
pub open spec fn posicion_stream(streams: Seq<JetStreamV>, nombre: Seq<char>) -> Option<int> {
    if exists|i: int| 0 <= i < streams.len() && streams[i].name == nombre {
        Some(
            choose|i: int|
                0 <= i < streams.len() && streams[i].name == nombre && forall|j: int|
                    0 <= j < i ==> streams[j].name != nombre,
        )
    } else {
        None
    }
}

/// El stream que describe el JSON, guardando su estado en los archivos de siempre.
pub open spec fn stream_de_json(json: Seq<char>) -> Option<JetStreamV> {
    jetstream_de_json(
        recorte(json),
        RESOURCES_PATH@,
        JETSTREAM_DATA_PATH@,
        CONSUMERS_PATH@,
        JETSTREAM_CONSUMERS_PATH@,
    )
}

/// `$JS.API.STREAM.CREATE.<nombre> json`: crea el stream si no hay otro con su nombre.
pub open spec fn paso_crear_stream(e: EjecutorV, cs: Seq<usize>, c: usize, msg: Seq<char>) -> PasoV {
    match stream_de_json(msg) {
        Some(js) => if posicion_stream(e.streams, js.name) is Some {
            sin_cambios(e, Seq::empty(), Ok(()))
        } else {
            sin_cambios(
                EjecutorV { streams: e.streams.push(js), ..e },
                seq![guardar_datos(js), guardar_relacion(js)],
                Ok(()),
            )
        },
        None => solo_error(e, cs, c, texto_error(ErrorV::InvalidJson)),
    }
}

/// `$JS.API.CONSUMER.CREATE.<stream> json`: crea el consumidor del stream y lo agrega
/// si no tiene otro con su nombre; su estado se guarda en cualquier caso.
pub open spec fn paso_crear_consumidor(
    e: EjecutorV,
    cs: Seq<usize>,
    c: usize,
    nombre_stream: Seq<char>,
    msg: Seq<char>,
) -> PasoV {
    match posicion_stream(e.streams, nombre_stream) {
        Some(i) => match consumidor_de_json(recorte(msg)) {
            None => sin_cambios(e, Seq::empty(), Err(ErrorV::InvalidJson)),
            Some(cv) => {
                let g = AccionV::GuardarCsv {
                    archivo: RESOURCES_PATH@ + CONSUMERS_PATH@,
                    clave: cv.name,
                    linea: linea_consumidor(cv),
                };
                let js = e.streams[i];
                if posicion_consumidor(js.consumers, cv.name) is Some {
                    sin_cambios(e, seq![g], Ok(()))
                } else {
                    let js2 = JetStreamV { consumers: js.consumers.push(cv), ..js };
                    sin_cambios(
                        EjecutorV { streams: e.streams.update(i, js2), ..e },
                        seq![
                            AccionV::CrearConsumidor {
                                stream: js.name,
                                nombre: cv.name,
                                delivery_subject: cv.delivery_subject,
                                last_ack: 0,
                            },
                            g,
                            guardar_relacion(js2),
                        ],
                        Ok(()),
                    )
                }
            },
        },
        None => {
            let t = texto_error(ErrorV::StreamNotFound);
            let (acts, r) = enviar_error(cs, c, t);
            sin_cambios(e, log_de(e.logs, c, LogType::Error, t) + acts, r)
        },
    }
}

/// Los argumentos de una confirmación `stream.consumidor.id`.
pub open spec fn argumentos_ack(op: Seq<char>) -> Option<(Seq<char>, Seq<char>, usize)> {
    let ps = dividir(op, '.');
    if ps.len() < 3 {
        None
    } else {
        match parse_usize_spec(ps[2]) {
            Some(n) => Some((ps[0], ps[1], n)),
            None => None,
        }
    }
}

/// `$JS.ACK.stream.consumidor.id`: el consumidor confirma el mensaje `id`.
pub open spec fn paso_ack(e: EjecutorV, cs: Seq<usize>, c: usize, op: Seq<char>) -> PasoV {
    match argumentos_ack(op) {
        None => solo_error(e, cs, c, texto_error(ErrorV::ParserError)),
        Some((sn, cn, id)) => match posicion_stream(e.streams, sn) {
            None => solo_error(e, cs, c, texto_error(ErrorV::StreamNotFound)),
            Some(i) => {
                let js = e.streams[i];
                match posicion_consumidor(js.consumers, cn) {
                    None => solo_error(
                        e,
                        cs,
                        c,
                        texto_error(ErrorV::InternalError("Consumer not found"@)),
                    ),
                    Some(j) => {
                        let cons = js.consumers[j];
                        let nuevo = ConsumidorV { last_acknoledged: id, ..cons };
                        sin_cambios(
                            EjecutorV {
                                streams: e.streams.update(
                                    i,
                                    JetStreamV { consumers: js.consumers.update(j, nuevo), ..js },
                                ),
                                ..e
                            },
                            seq![
                                AccionV::AckConsumidor { stream: js.name, consumidor: cons.name, id },
                                AccionV::GuardarCsv {
                                    archivo: js.resources_path + js.consumers_path,
                                    clave: cons.name,
                                    linea: linea_consumidor(nuevo),
                                },
                            ],
                            Ok(()),
                        )
                    },
                }
            },
        },
    }
}

/// El usuario y la contraseña de un `CONNECT`.
pub open spec fn credenciales(json: Seq<char>) -> Option<(Seq<char>, Seq<char>)> {
    match (campo_texto_json(json, "user"@), campo_texto_json(json, "pass"@)) {
        (Some(u), Some(p)) => Some((u, p)),
        _ => None,
    }
}

/// El usuario que el repositorio `repo` encuentra con las credenciales del
/// `CONNECT` `json`; `None` si le falta el usuario o la contraseña.
pub open spec fn usuario_de<R: UsersRepository>(repo: R, json: Seq<char>) -> Option<UsuarioV> {
    match credenciales(json) {
        Some((u, p)) => repo.encontrado(u, p),
        None => None,
    }
}

/// `CONNECT json`: si se exige autenticación, el usuario debe existir con esa
/// contraseña; se le asignan sus permisos y su log.
pub open spec fn paso_connect(
    e: EjecutorV,
    cs: Seq<usize>,
    c: usize,
    msg: Seq<char>,
    usuario: Option<UsuarioV>,
) -> PasoV {
    if !cs.contains(c) {
        sin_cambios(e, Seq::empty(), Err(sin_conexion()))
    } else if !e.auth_required {
        sin_cambios(e, seq![ok(c)], Ok(()))
    } else {
        match (credenciales(msg), usuario) {
            (Some(_), Some(u)) => sin_cambios(
                EjecutorV {
                    permisos: poner(
                        e.permisos,
                        c,
                        PermisosV { subscribe: u.subscribe, publish: u.publish },
                    ),
                    logs: poner(e.logs, c, u.message_log),
                    ..e
                },
                seq![
                    AccionV::Log { archivo: u.message_log, tipo: LogType::Info, msg: "CONNECT"@ },
                    ok(c),
                ],
                Ok(()),
            ),
            _ => sin_cambios(
                e,
                seq![escribir(c, "-ERR "@ + texto_error(ErrorV::AuthorizationViolation) + "\r\n"@)],
                Err(ErrorV::AuthorizationViolation),
            ),
        }
    }
}

/// Los caracteres que terminan el comando: el espacio y el tabulador.
pub open spec fn es_separador(c: char) -> bool {
    c == ' ' || c == '\t'
}

/// La posición del primer espacio o tabulador del mensaje, si hay alguno.
pub open spec fn primer_espacio(m: Seq<char>) -> Option<int> {
    if exists|i: int| 0 <= i < m.len() && es_separador(m[i]) {
        Some(
            choose|i: int|
                0 <= i < m.len() && es_separador(m[i]) && forall|j: int| 0 <= j < i ==> !es_separador(m[j]),
        )
    } else {
        None
    }
}

/// El comando: los caracteres antes del primer espacio o tabulador.
pub open spec fn comando_de(m: Seq<char>) -> Seq<char> {
    match primer_espacio(m) {
        Some(i) => m.take(i),
        None => m,
    }
}

/// Cuántos caracteres ocupa el comando, con el separador que lo termina si lo hay.
pub open spec fn consumidos(m: Seq<char>) -> int {
    match primer_espacio(m) {
        Some(i) => i + 1,
        None => m.len() as int,
    }
}

/// El resto del mensaje: los caracteres tras el separador que termina el comando.
pub open spec fn resto_de(m: Seq<char>) -> Seq<char> {
    m.skip(consumidos(m))
}

/// Lo que hace un comando con su resto, según el comando.
pub open spec fn paso_comando(
    e: EjecutorV,
    cs: Seq<usize>,
    c: usize,
    comando: Seq<char>,
    resto: Seq<char>,
    usuario: Option<UsuarioV>,
) -> PasoV {
    if comando == "CONSUMER_PUBLISH"@ || comando == "PONG"@ || comando == "pong"@ {
        sin_cambios(e, Seq::empty(), Ok(()))
    } else if comando == "CONNECT"@ || comando == "connect"@ {
        paso_connect(e, cs, c, resto, usuario)
    } else if comando == "PUB"@ || comando == "pub"@ {
        paso_pub(e, cs, c, resto)
    } else if comando == "HPUB"@ || comando == "hpub"@ {
        paso_hpub(e, cs, c, resto)
    } else if comando == "SUB"@ || comando == "sub"@ {
        paso_sub(e, cs, c, resto)
    } else if comando == "UNSUB"@ || comando == "unsub"@ {
        paso_unsub(e, cs, c, resto)
    } else if comando == "PING"@ || comando == "ping"@ {
        paso_respuesta(e, cs, c, "PONG"@)
    } else if comando == "SEND_PING"@ {
        paso_respuesta(e, cs, c, "PING"@)
    } else if comando == "SHUTDOWN"@ {
        paso_shutdown(e, cs, c)
    } else if comando == "-ERR"@ || comando == "-err"@ {
        solo_error(e, cs, c, resto)
    } else if empieza(comando, "$JS.API.STREAM.CREATE."@) {
        paso_crear_stream(e, cs, c, resto)
    } else if empieza(comando, "$JS.API.CONSUMER.CREATE."@) {
        paso_crear_consumidor(e, cs, c, sin_prefijos(comando, "$JS.API.CONSUMER.CREATE."@), resto)
    } else if empieza(comando, "$JS.ACK."@) {
        paso_ack(e, cs, c, sin_prefijos(comando, "$JS.ACK."@))
    } else {
        solo_error(e, cs, c, texto_error(ErrorV::UnknownProtocolOperation))
    }
}

/// Un paso del ejecutor con el mensaje `m` del cliente `c`, estando conectados
/// los clientes `cs`, si el repositorio de usuarios da `usuario` para las
/// credenciales de un `CONNECT`: si hay un `HPUB` en curso, el mensaje es una
/// de sus líneas; si no, se separa el comando y se ejecuta.
pub open spec fn paso(
    e: EjecutorV,
    cs: Seq<usize>,
    c: usize,
    m: Seq<char>,
    usuario: Option<UsuarioV>,
) -> PasoV {
    match e.hpub {
        Some(h) => paso_linea_hpub(e, cs, h, m),
        None => paso_comando(e, cs, c, comando_de(m), resto_de(m), usuario),
    }
}

/// Buscar en una lista es buscar tras los primeros `i` elementos si ninguno tiene la clave.
proof fn lema_buscar_salto<T>(s: Seq<(usize, T)>, id: usize, i: int)
    requires
        0 <= i <= s.len(),
        forall|j: int| 0 <= j < i ==> (#[trigger] s[j]).0 != id,
    ensures
        buscar(s, id) == buscar(s.skip(i), id),
    decreases i,
{
    if i == 0 {
        assert(s.skip(0) =~= s);
    } else {
        lema_buscar_salto(s.drop_first(), id, i - 1);
        assert(s.drop_first().skip(i - 1) =~= s.skip(i));
    }
}

/// Guardar con una clave que está por primera vez en la posición `i` reemplaza esa posición.
proof fn lema_poner_en<T>(s: Seq<(usize, T)>, id: usize, v: T, i: int)
    requires
        0 <= i < s.len(),
        s[i].0 == id,
        forall|j: int| 0 <= j < i ==> (#[trigger] s[j]).0 != id,
    ensures
        poner(s, id, v) == s.update(i, (id, v)),
    decreases i,
{
    if i > 0 {
        lema_poner_en(s.drop_first(), id, v, i - 1);
        assert(seq![s[0]] + s.drop_first().update(i - 1, (id, v)) =~= s.update(i, (id, v)));
    }
}

/// Guardar con una clave que no está agrega el par al final.
proof fn lema_poner_al_final<T>(s: Seq<(usize, T)>, id: usize, v: T)
    requires
        forall|j: int| 0 <= j < s.len() ==> (#[trigger] s[j]).0 != id,
    ensures
        poner(s, id, v) == s.push((id, v)),
    decreases s.len(),
{
    if s.len() > 0 {
        lema_poner_al_final(s.drop_first(), id, v);
        assert(seq![s[0]] + s.drop_first().push((id, v)) =~= s.push((id, v)));
    }
}

/// Ejecuta las operaciones que los clientes envían al servidor: lleva las
/// suscripciones, los permisos y el log de cada cliente autenticado, los
/// streams de JetStream y el `HPUB` en curso, y pide las escrituras y registros.
pub struct CommandExecutor<R: UsersRepository> {
    permissions: Vec<(usize, UserPermissions)>,
    loggers: Vec<(usize, Logger)>,
    js_streams: Vec<JetStream>,
    suscriptions: Vec<Suscription>,
    auth_required: bool,
    users_repository: R,
    hpub: Option<Hpub>,
}

impl<R: UsersRepository> View for CommandExecutor<R> {
    type V = EjecutorV;

    closed spec fn view(&self) -> EjecutorV {
        EjecutorV {
            permisos: self.permissions@.map_values(|p: (usize, UserPermissions)| (p.0, p.1@)),
            logs: self.loggers@.map_values(|p: (usize, Logger)| (p.0, p.1.log_file@)),
            streams: self.js_streams@.map_values(|j: JetStream| j@),
            suscripciones: self.suscriptions@.map_values(|s: Suscription| s@),
            auth_required: self.auth_required,
            hpub: match self.hpub {
                Some(h) => Some(h@),
                None => None,
            },
        }
    }
}

/// Vista de una lista de suscripciones.
pub open spec fn vistas_subs(v: Seq<Suscription>) -> Seq<SuscripcionV> {
    v.map_values(|s: Suscription| s@)
}

impl<R: UsersRepository> CommandExecutor<R> {
    /// El repositorio de usuarios con que se autentica a los clientes.
    pub closed spec fn repositorio(&self) -> R {
        self.users_repository
    }

    /// Un ejecutor sin clientes autenticados ni suscripciones, con los streams dados.
    pub fn new(auth_required: bool, users_repository: R, js_streams: Vec<JetStream>) -> (r: Self)
        ensures
            r@ == (EjecutorV {
                permisos: Seq::empty(),
                logs: Seq::empty(),
                streams: js_streams@.map_values(|j: JetStream| j@),
                suscripciones: Seq::empty(),
                auth_required,
                hpub: None,
            }),
            r.repositorio() == users_repository,
    {
        let r = CommandExecutor {
            permissions: Vec::new(),
            loggers: Vec::new(),
            js_streams,
            suscriptions: Vec::new(),
            auth_required,
            users_repository,
            hpub: None,
        };
        assert(r@.permisos =~= Seq::empty());
        assert(r@.logs =~= Seq::empty());
        assert(r@.suscripciones =~= Seq::empty());
        r
    }

    /// El archivo de log del cliente, si tiene uno.
    fn log_de_cliente(&self, c: usize) -> (r: Option<String>)
        ensures
            vista_opcional(r) == buscar(self@.logs, c),
    {
        let ghost ls = self@.logs;
        for i in 0..self.loggers.len()
            invariant
                ls == self@.logs,
                ls.len() == self.loggers@.len(),
                forall|j: int| 0 <= j < i ==> (#[trigger] ls[j]).0 != c,
        {
            assert(ls[i as int] == (self.loggers@[i as int].0, self.loggers@[i as int].1.log_file@));
            if self.loggers[i].0 == c {
                proof {
                    lema_buscar_salto(ls, c, i as int);
                    assert(ls.skip(i as int)[0] == ls[i as int]);
                }
                return Some(self.loggers[i].1.log_file.clone());
            }
        }
        proof {
            lema_buscar_salto(ls, c, ls.len() as int);
        }
        None
    }

    /// Registra `msg` en el log del cliente, si tiene uno.
    fn loggear(&self, c: usize, tipo: LogType, msg: &str, acciones: &mut Vec<Accion>)
        ensures
            vistas_acciones(final(acciones)@) == vistas_acciones(old(acciones)@) + log_de(
                self@.logs,
                c,
                tipo,
                msg@,
            ),
    {
        match self.log_de_cliente(c) {
            Some(f) => {
                agregar(acciones, Accion::Log { archivo: f, tipo, msg: String::from_str(msg) });
            },
            None => {
                assert(vistas_acciones(acciones@) =~= vistas_acciones(acciones@) + Seq::empty());
            },
        }
    }

    /// Indica si el cliente tiene permiso para suscribirse (o publicar) en el subject.
    fn check_permissions(&self, c: usize, suscribir: bool, subject: &str) -> (r: bool)
        ensures
            r == permitido(self@, c, suscribir, subject@),
    {
        if !self.auth_required {
            return true;
        }
        let ghost ps = self@.permisos;
        for i in 0..self.permissions.len()
            invariant
                ps == self@.permisos,
                self.auth_required,
                ps.len() == self.permissions@.len(),
                forall|j: int| 0 <= j < i ==> (#[trigger] ps[j]).0 != c,
        {
            assert(ps[i as int] == (self.permissions@[i as int].0, self.permissions@[i as int].1@));
            if self.permissions[i].0 == c {
                proof {
                    lema_buscar_salto(ps, c, i as int);
                    assert(ps.skip(i as int)[0] == ps[i as int]);
                }
                if suscribir {
                    return self.permissions[i].1.can_subscribe(subject);
                } else {
                    return self.permissions[i].1.can_publish(subject);
                }
            }
        }
        proof {
            lema_buscar_salto(ps, c, ps.len() as int);
        }
        false
    }

    /// Guarda los permisos y el log de un cliente autenticado.
    fn registrar_cliente(&mut self, c: usize, permisos: UserPermissions, log: String)
        ensures
            final(self)@ == (EjecutorV {
                permisos: poner(old(self)@.permisos, c, permisos@),
                logs: poner(old(self)@.logs, c, log@),
                ..old(self)@
            }),
            final(self).repositorio() == old(self).repositorio(),
    {
        let ghost ps = self@.permisos;
        let mut i: usize = 0;
        while i < self.permissions.len() && self.permissions[i].0 != c
            invariant
                ps == old(self)@.permisos,
                ps == self@.permisos,
                self@ == old(self)@,
                self.repositorio() == old(self).repositorio(),
                ps.len() == self.permissions@.len(),
                i <= ps.len(),
                forall|j: int| 0 <= j < i ==> (#[trigger] ps[j]).0 != c,
            decreases ps.len() - i,
        {
            assert(ps[i as int].0 == self.permissions@[i as int].0);
            i = i + 1;
        }
        let ghost pv = permisos@;
        if i < self.permissions.len() {
            assert(ps[i as int].0 == self.permissions@[i as int].0);
            proof {
                lema_poner_en(ps, c, pv, i as int);
            }
            let ghost antes = self.permissions@;
            let _ = self.permissions.remove(i);
            self.permissions.insert(i, (c, permisos));
            assert(self.permissions@ =~= antes.update(i as int, (c, self.permissions@[i as int].1)));
            assert(self@.permisos =~= ps.update(i as int, (c, pv)));
        } else {
            proof {
                lema_poner_al_final(ps, c, pv);
            }
            let ghost antes = self.permissions@;
            self.permissions.push((c, permisos));
            assert(self.permissions@ =~= antes.push((c, self.permissions@[i as int].1)));
            assert(self@.permisos =~= ps.push((c, pv)));
        }
        let ghost ls = self@.logs;
        let mut k: usize = 0;
        while k < self.loggers.len() && self.loggers[k].0 != c
            invariant
                ls == old(self)@.logs,
                ls == self@.logs,
                self.repositorio() == old(self).repositorio(),
                self@.permisos == poner(old(self)@.permisos, c, pv),
                ls.len() == self.loggers@.len(),
                k <= ls.len(),
                forall|j: int| 0 <= j < k ==> (#[trigger] ls[j]).0 != c,
            decreases ls.len() - k,
        {
            assert(ls[k as int].0 == self.loggers@[k as int].0);
            k = k + 1;
        }
        let logger = Logger::new(log.as_str());
        if k < self.loggers.len() {
            assert(ls[k as int].0 == self.loggers@[k as int].0);
            proof {
                lema_poner_en(ls, c, log@, k as int);
            }
            let ghost antes = self.loggers@;
            let _ = self.loggers.remove(k);
            self.loggers.insert(k, (c, logger));
            assert(self.loggers@ =~= antes.update(k as int, (c, self.loggers@[k as int].1)));
            assert(self@.logs =~= ls.update(k as int, (c, log@)));
        } else {
            proof {
                lema_poner_al_final(ls, c, log@);
            }
            let ghost antes = self.loggers@;
            self.loggers.push((c, logger));
            assert(self.loggers@ =~= antes.push((c, self.loggers@[k as int].1)));
            assert(self@.logs =~= ls.push((c, log@)));
        }
    }
}

/// Envía un error al cliente, si está conectado.
fn enviar_error_a(
    conectados: &Vec<usize>,
    c: usize,
    texto: &str,
    acciones: &mut Vec<Accion>,
) -> (r: Result<(), ErroresServer>)
    ensures
        vistas_acciones(final(acciones)@) == vistas_acciones(old(acciones)@) + enviar_error(
            conectados@,
            c,
            texto@,
        ).0,
        vista_resultado(r) == enviar_error(conectados@, c, texto@).1,
{
    if contiene(conectados, c) {
        let mut m = String::from_str("-ERR ");
        m.append(texto);
        m.append("\r\n");
        agregar(acciones, Accion::Escribir { cliente: c, msg: m });
        Ok(())
    } else {
        assert(vistas_acciones(acciones@) =~= vistas_acciones(acciones@) + Seq::empty());
        Err(ErroresServer::StreamNotFound)
    }
}

/// Pide escribir `msg` al cliente.
fn escribir_a(c: usize, msg: &str, acciones: &mut Vec<Accion>)
    ensures
        vistas_acciones(final(acciones)@) == vistas_acciones(old(acciones)@).push(escribir(c, msg@)),
{
    agregar(acciones, Accion::Escribir { cliente: c, msg: String::from_str(msg) });
}

/// El error de no encontrar la conexión del cliente.
fn error_sin_conexion() -> (r: ErroresServer)
    ensures
        r@ == sin_conexion(),
{
    ErroresServer::InternalError(String::from_str("Error al acceder al stream del cliente"))
}

/// Que el paso `p` describe el cambio del ejecutor, de las acciones y el resultado.
pub open spec fn cumple<R: UsersRepository>(
    antes: CommandExecutor<R>,
    despues: CommandExecutor<R>,
    acciones_antes: Seq<Accion>,
    acciones_despues: Seq<Accion>,
    r: Result<(), ErroresServer>,
    p: PasoV,
) -> bool {
    &&& despues@ == p.estado
    &&& vistas_acciones(acciones_despues) == vistas_acciones(acciones_antes) + p.acciones
    &&& vista_resultado(r) == p.resultado
    &&& despues.repositorio() == antes.repositorio()
}

impl<R: UsersRepository> CommandExecutor<R> {
    /// `SUB subject sid`.
    fn sub(&mut self, mensaje: &str, c: usize, conectados: &Vec<usize>, acciones: &mut Vec<Accion>) -> (r:
        Result<(), ErroresServer>)
        ensures
            cumple(
                *old(self),
                *final(self),
                old(acciones)@,
                final(acciones)@,
                r,
                paso_sub(old(self)@, conectados@, c, mensaje@),
            ),
    {
        let partes = palabras_exec(mensaje);
        let ghost ps = palabras(mensaje@);
        if partes.len() > 3 || partes.len() <= 1 {
            let err = if partes.len() > 3 {
                ErroresServer::InvalidSubject(
                    String::from_str("hay mas de 3 parametros en subject del SUB"),
                )
            } else {
                ErroresServer::InvalidSubject(
                    String::from_str("hay menos de 2 parametros en el subject del SUB"),
                )
            };
            let texto = err.to_string();
            let ghost a0 = vistas_acciones(acciones@);
            self.loggear(c, LogType::Error, texto.as_str(), acciones);
            let r = enviar_error_a(conectados, c, texto.as_str(), acciones);
            assert(vistas_acciones(acciones@) =~= a0 + (log_de(self@.logs, c, LogType::Error, texto@)
                + enviar_error(conectados@, c, texto@).0));
            match r {
                Ok(()) => {
                    return Err(err);
                },
                Err(e) => {
                    return Err(e);
                },
            }
        }
        assert(vistas(partes@)[0] == partes@[0]@);
        assert(vistas(partes@)[1] == partes@[1]@);
        let subject = partes[0].clone();
        match validate_subject(subject.as_str()) {
            Err(e) => {
                let texto = e.to_string();
                let ghost a0 = vistas_acciones(acciones@);
                let ghost m = error_de_subject(subject@)->0;
                assert(e@ == ErrorV::InvalidSubject(m));
                match enviar_error_a(conectados, c, texto.as_str(), acciones) {
                    Ok(()) => {},
                    Err(e2) => {
                        return Err(e2);
                    },
                }
                self.loggear(c, LogType::Error, texto.as_str(), acciones);
                assert(vistas_acciones(acciones@) =~= a0 + (enviar_error(conectados@, c, texto@).0
                    + log_de(self@.logs, c, LogType::Error, texto@)));
                return Err(e);
            },
            Ok(()) => {},
        }
        if !self.check_permissions(c, true, subject.as_str()) {
            let e = ErroresServer::SubscriptionPermissionsViolation(subject.clone());
            let texto = e.to_string();
            return enviar_error_a(conectados, c, texto.as_str(), acciones);
        }
        let ghost antes = self.suscriptions@;
        let ghost logs = self@.logs;
        self.suscriptions.push(Suscription::new(c, subject.clone(), None, partes[1].clone()));
        assert(vistas_subs(self.suscriptions@) =~= vistas_subs(antes).push(
            SuscripcionV { connection_id: c, subject: subject@, max_msgs: None, sid: partes@[1]@ },
        ));
        if !contiene(conectados, c) {
            return Err(error_sin_conexion());
        }
        let ghost a0 = vistas_acciones(acciones@);
        escribir_a(c, "+OK\r\n", acciones);
        let mut m = String::from_str("SUB ");
        m.append(subject.as_str());
        self.loggear(c, LogType::Info, m.as_str(), acciones);
        assert(vistas_acciones(acciones@) =~= a0 + (seq![ok(c)] + log_de(
            logs,
            c,
            LogType::Info,
            "SUB "@ + subject@,
        )));
        Ok(())
    }
}

/// Los argumentos de un `UNSUB`.
fn leer_argumentos_unsub(mensaje: &str) -> (r: Option<(String, Option<usize>)>)
    ensures
        match (r, argumentos_unsub(mensaje@)) {
            (Some((s, m)), Some((t, n))) => s@ == t && m == n,
            (None, None) => true,
            _ => false,
        },
{
    let partes = palabras_exec(mensaje);
    if partes.len() == 1 {
        assert(vistas(partes@)[0] == partes@[0]@);
        Some((partes[0].clone(), None))
    } else if partes.len() == 2 {
        assert(vistas(partes@)[0] == partes@[0]@);
        assert(vistas(partes@)[1] == partes@[1]@);
        match parse_usize(partes[1].as_str()) {
            Some(n) => Some((partes[0].clone(), Some(n))),
            None => None,
        }
    } else {
        None
    }
}

/// Una respuesta (`PONG` o `PING`) al cliente, registrada en su log.
fn responder<R: UsersRepository>(
    ej: &CommandExecutor<R>,
    c: usize,
    texto: &str,
    conectados: &Vec<usize>,
    acciones: &mut Vec<Accion>,
) -> (r: Result<(), ErroresServer>)
    ensures
        ({
            let p = paso_respuesta(ej@, conectados@, c, texto@);
            &&& vistas_acciones(final(acciones)@) == vistas_acciones(old(acciones)@) + p.acciones
            &&& vista_resultado(r) == p.resultado
        }),
{
    if !contiene(conectados, c) {
        assert(vistas_acciones(acciones@) =~= vistas_acciones(acciones@) + Seq::empty());
        return Err(ErroresServer::StreamNotFound);
    }
    let ghost a0 = vistas_acciones(acciones@);
    let mut m = String::from_str(texto);
    m.append("\r\n");
    agregar(acciones, Accion::Escribir { cliente: c, msg: m });
    ej.loggear(c, LogType::Info, texto, acciones);
    assert(vistas_acciones(acciones@) =~= a0 + (seq![escribir(c, texto@ + "\r\n"@)] + log_de(
        ej@.logs,
        c,
        LogType::Info,
        texto@,
    )));
    Ok(())
}

impl<R: UsersRepository> CommandExecutor<R> {
    /// La primera suscripción del cliente con ese sid.
    fn buscar_sub(&self, sid: &str, c: usize) -> (r: Option<usize>)
        ensures
            match (r, posicion_sub(self@.suscripciones, sid@, c)) {
                (Some(i), Some(j)) => i == j,
                (None, None) => true,
                _ => false,
            },
            r matches Some(i) ==> i < self@.suscripciones.len(),
    {
        let ghost subs = self@.suscripciones;
        for i in 0..self.suscriptions.len()
            invariant
                subs == self@.suscripciones,
                subs.len() == self.suscriptions@.len(),
                forall|j: int| 0 <= j < i ==> !((#[trigger] subs[j]).sid == sid@ && subs[j].connection_id == c),
        {
            assert(subs[i as int] == self.suscriptions@[i as int]@);
            if self.suscriptions[i].connection_id == c && textos_iguales(
                self.suscriptions[i].sid.as_str(),
                sid,
            ) {
                let ghost p = posicion_sub(subs, sid@, c);
                assert(p is Some);
                let ghost k = p->0;
                assert(k == i) by {
                    if k < i {
                        assert(!(subs[k].sid == sid@ && subs[k].connection_id == c));
                    } else if k > i {
                        assert(!(subs[i as int].sid == sid@ && subs[i as int].connection_id == c));
                    }
                }
                return Some(i);
            }
        }
        None
    }

    /// Fija el máximo de mensajes de la suscripción `i`, o la quita si no se da máximo.
    fn modificar_sub(&mut self, i: usize, max: Option<usize>)
        requires
            i < old(self)@.suscripciones.len(),
        ensures
            final(self)@ == (EjecutorV {
                suscripciones: match max {
                    Some(n) => old(self)@.suscripciones.update(
                        i as int,
                        SuscripcionV { max_msgs: Some(n), ..old(self)@.suscripciones[i as int] },
                    ),
                    None => old(self)@.suscripciones.remove(i as int),
                },
                ..old(self)@
            }),
            final(self).repositorio() == old(self).repositorio(),
    {
        let ghost antes = self.suscriptions@;
        let mut s = self.suscriptions.remove(i);
        match max {
            Some(n) => {
                s.max_msgs = Some(n);
                self.suscriptions.insert(i, s);
                assert(vistas_subs(self.suscriptions@) =~= vistas_subs(antes).update(
                    i as int,
                    SuscripcionV { max_msgs: Some(n), ..vistas_subs(antes)[i as int] },
                ));
            },
            None => {
                assert(vistas_subs(self.suscriptions@) =~= vistas_subs(antes).remove(i as int));
            },
        }
    }

    /// `UNSUB sid [max]`.
    #[verifier::rlimit(30)]
    fn unsub(&mut self, mensaje: &str, c: usize, conectados: &Vec<usize>, acciones: &mut Vec<Accion>) -> (r:
        Result<(), ErroresServer>)
        ensures
            cumple(
                *old(self),
                *final(self),
                old(acciones)@,
                final(acciones)@,
                r,
                paso_unsub(old(self)@, conectados@, c, mensaje@),
            ),
    {
        let ghost a0 = vistas_acciones(acciones@);
        let (sid, max) = match leer_argumentos_unsub(mensaje) {
            Some(v) => v,
            None => {
                let e = ErroresServer::MalformedUnsubError;
                let t = e.to_string();
                let e2 = ErroresServer::InvalidSubject(t);
                let t2 = e2.to_string();
                match enviar_error_a(conectados, c, t2.as_str(), acciones) {
                    Ok(()) => {},
                    Err(x) => {
                        return Err(x);
                    },
                }
                let t3 = e.to_string();
                self.loggear(c, LogType::Error, t3.as_str(), acciones);
                assert(vistas_acciones(acciones@) =~= a0 + (enviar_error(conectados@, c, t2@).0
                    + log_de(self@.logs, c, LogType::Error, t3@)));
                return Ok(());
            },
        };
        match self.buscar_sub(sid.as_str(), c) {
            None => {
                let e = ErroresServer::InvalidSubject(
                    String::from_str("no hay coincidencias para el SID recibido"),
                );
                let t = e.to_string();
                self.loggear(c, LogType::Error, t.as_str(), acciones);
                let r = enviar_error_a(conectados, c, t.as_str(), acciones);
                assert(vistas_acciones(acciones@) =~= a0 + (log_de(self@.logs, c, LogType::Error, t@)
                    + enviar_error(conectados@, c, t@).0));
                match r {
                    Ok(()) => {
                        return Ok(());
                    },
                    Err(x) => {
                        return Err(x);
                    },
                }
            },
            Some(i) => {
                let ghost logs = self@.logs;
                self.modificar_sub(i, max);
                if !contiene(conectados, c) {
                    return Err(error_sin_conexion());
                }
                escribir_a(c, "+OK\r\n", acciones);
                match max {
                    Some(n) => {
                        let mut m = String::from_str("UNSUB: sid:");
                        m.append(sid.as_str());
                        m.append(" max_msg:");
                        let d = usize_a_texto(n);
                        m.append(d.as_str());
                        self.loggear(c, LogType::Info, m.as_str(), acciones);
                        assert(vistas_acciones(acciones@) =~= a0 + (seq![ok(c)] + log_de(
                            logs,
                            c,
                            LogType::Info,
                            "UNSUB: sid:"@ + sid@ + " max_msg:"@ + decimal(n as nat),
                        )));
                    },
                    None => {
                        assert(vistas_acciones(acciones@) =~= a0 + (seq![ok(c)] + Seq::empty()));
                    },
                }
                Ok(())
            },
        }
    }

    /// `SHUTDOWN`: quita las suscripciones del cliente y cierra su conexión.
    fn shutdown(&mut self, c: usize, conectados: &Vec<usize>, acciones: &mut Vec<Accion>)
        ensures
            cumple(
                *old(self),
                *final(self),
                old(acciones)@,
                final(acciones)@,
                Ok(()),
                paso_shutdown(old(self)@, conectados@, c),
            ),
    {
        let ghost subs = self@.suscripciones;
        let mut nuevas: Vec<Suscription> = Vec::new();
        let mut viejas = Vec::new();
        std::mem::swap(&mut viejas, &mut self.suscriptions);
        let ghost vs = vistas_subs(viejas@);
        assert(vs == subs);
        let n = viejas.len();
        let mut i: usize = 0;
        assert(vs.skip(0) =~= vs);
        assert(sin_cliente(vs.take(0), c) =~= Seq::empty()) by {
            reveal(Seq::filter);
        }
        assert(vistas_subs(nuevas@) =~= Seq::empty());
        while viejas.len() > 0
            invariant
                vs == subs,
                n == vs.len(),
                i + viejas@.len() == n,
                vistas_subs(viejas@) == vs.skip(i as int),
                vistas_subs(nuevas@) == sin_cliente(vs.take(i as int), c),
            decreases viejas@.len(),
        {
            let ghost w0 = viejas@;
            let s = viejas.remove(0);
            assert(viejas@ =~= w0.remove(0));
            assert(vistas_subs(w0)[0] == s@);
            assert(vs.skip(i as int)[0] == vs[i as int]);
            assert(vs.take(i + 1).drop_last() =~= vs.take(i as int));
            assert(vs.take(i + 1).last() == s@);
            assert(vistas_subs(viejas@) =~= vistas_subs(w0).drop_first());
            assert(vs.skip(i as int).drop_first() =~= vs.skip(i + 1));
            proof {
                reveal(Seq::filter);
            }
            if s.connection_id != c {
                let ghost n0 = nuevas@;
                nuevas.push(s);
                assert(vistas_subs(nuevas@) =~= vistas_subs(n0).push(nuevas@[n0.len() as int]@));
            }
            i = i + 1;
        }
        assert(vs.take(vs.len() as int) =~= vs);
        self.suscriptions = nuevas;
        let ghost a0 = vistas_acciones(acciones@);
        if contiene(conectados, c) {
            agregar(acciones, Accion::Cerrar { cliente: c });
            self.loggear(c, LogType::Info, "SHUTDOWN", acciones);
            assert(vistas_acciones(acciones@) =~= a0 + (seq![AccionV::Cerrar { cliente: c }]
                + log_de(self@.logs, c, LogType::Info, "SHUTDOWN"@)));
        } else {
            self.loggear(c, LogType::Warn, "No se encontro el cliente para hacer el shutdown", acciones);
        }
    }

    /// `CONNECT json`.
    fn connect(&mut self, mensaje: &str, c: usize, conectados: &Vec<usize>, acciones: &mut Vec<Accion>) -> (r:
        Result<(), ErroresServer>)
        ensures
            cumple(
                *old(self),
                *final(self),
                old(acciones)@,
                final(acciones)@,
                r,
                paso_connect(old(self)@, conectados@, c, mensaje@, usuario_de(old(self).repositorio(), mensaje@)),
            ),
    {
        let ghost e0 = self@;
        if !contiene(conectados, c) {
            assert(vistas_acciones(acciones@) =~= vistas_acciones(acciones@) + Seq::empty());
            assert(paso_connect(e0, conectados@, c, mensaje@, None).acciones =~= Seq::empty());
            return Err(error_sin_conexion());
        }
        let ghost a0 = vistas_acciones(acciones@);
        if !self.auth_required {
            escribir_a(c, "+OK\r\n", acciones);
            assert(vistas_acciones(acciones@) =~= a0 + seq![ok(c)]);
            assert(paso_connect(e0, conectados@, c, mensaje@, None).acciones == seq![ok(c)]);
            return Ok(());
        }
        let usuario = match (campo_texto(mensaje, "user"), campo_texto(mensaje, "pass")) {
            (Some(u), Some(p)) => self.users_repository.find_user_by_username_and_password(
                u.as_str(),
                p.as_str(),
            ),
            _ => None,
        };
        let ghost uv = match &usuario {
            Some(x) => Some(x@),
            None => None,
        };
        assert(uv == usuario_de(old(self).repositorio(), mensaje@));
        match usuario {
            Some(u) => {
                let permisos = UserPermissions::from(&u);
                let log = String::from_str(u.get_log());
                self.registrar_cliente(c, permisos, log);
                agregar(
                    acciones,
                    Accion::Log {
                        archivo: String::from_str(u.get_log()),
                        tipo: LogType::Info,
                        msg: String::from_str("CONNECT"),
                    },
                );
                escribir_a(c, "+OK\r\n", acciones);
                assert(vistas_acciones(acciones@) =~= a0 + seq![
                    AccionV::Log { archivo: u@.message_log, tipo: LogType::Info, msg: "CONNECT"@ },
                    ok(c),
                ]);
                assert(cumple(
                    *old(self),
                    *self,
                    old(acciones)@,
                    acciones@,
                    Ok(()),
                    paso_connect(e0, conectados@, c, mensaje@, uv),
                ));
                Ok(())
            },
            None => {
                let e = ErroresServer::AuthorizationViolation;
                let mut m = String::from_str("-ERR ");
                let t = e.to_string();
                m.append(t.as_str());
                m.append("\r\n");
                agregar(acciones, Accion::Escribir { cliente: c, msg: m });
                assert(vistas_acciones(acciones@) =~= a0 + seq![
                    escribir(c, "-ERR "@ + texto_error(ErrorV::AuthorizationViolation) + "\r\n"@),
                ]);
                assert(cumple(
                    *old(self),
                    *self,
                    old(acciones)@,
                    acciones@,
                    Err(ErroresServer::AuthorizationViolation),
                    paso_connect(e0, conectados@, c, mensaje@, None),
                ));
                Err(e)
            },
        }
    }
}

/// Cada stream cuyo subject coincide puede numerar un mensaje más.
pub open spec fn almacenable(streams: Seq<JetStreamV>, subject: Seq<char>) -> bool {
    forall|i: int|
        0 <= i < streams.len() && algun_patron_acepta((#[trigger] streams[i]).subjects, subject)
            ==> streams[i].id_counter < usize::MAX
}

/// Ninguna suscripción conectada cuyo subject coincide se quedó sin mensajes por recibir.
pub open spec fn entrega_segura(subs: Seq<SuscripcionV>, cs: Seq<usize>, subject: Seq<char>) -> bool {
    forall|i: int|
        0 <= i < subs.len() && coincide_subject((#[trigger] subs[i]).subject, subject)
            && cs.contains(subs[i].connection_id) ==> subs[i].max_msgs != Some(0usize)
}

/// Guardar un mensaje en los streams no cambia cuántos son ni sus subjects.
proof fn lema_almacenar(streams: Seq<JetStreamV>, subject: Seq<char>, payload: Seq<char>)
    ensures
        almacenar(streams, subject, payload).0.len() == streams.len(),
        forall|i: int|
            0 <= i < streams.len() ==> (#[trigger] almacenar(streams, subject, payload).0[i]).subjects
                == streams[i].subjects,
    decreases streams.len(),
{
    if streams.len() > 0 {
        lema_almacenar(streams.drop_last(), subject, payload);
    }
}

/// Copia un texto opcional.
fn copiar_opcional(o: &Option<String>) -> (r: Option<String>)
    ensures
        vista_opcional(r) == vista_opcional(*o),
{
    match o {
        Some(s) => Some(s.clone()),
        None => None,
    }
}

impl<R: UsersRepository> CommandExecutor<R> {
    /// Guarda el mensaje en cada stream cuyo subject coincide.
    fn almacenar_en_streams(&mut self, subject: &str, payload: &str, acciones: &mut Vec<Accion>)
        requires
            streams_validos(old(self)@),
            almacenable(old(self)@.streams, subject@),
        ensures
            final(self)@ == (EjecutorV {
                streams: almacenar(old(self)@.streams, subject@, payload@).0,
                ..old(self)@
            }),
            vistas_acciones(final(acciones)@) == vistas_acciones(old(acciones)@) + almacenar(
                old(self)@.streams,
                subject@,
                payload@,
            ).1,
            final(self).repositorio() == old(self).repositorio(),
            streams_validos(final(self)@),
    {
        let ghost e0 = self@;
        let ghost vs = self@.streams;
        let ghost a0 = vistas_acciones(acciones@);
        let mut viejos: Vec<JetStream> = Vec::new();
        std::mem::swap(&mut viejos, &mut self.js_streams);
        let n = viejos.len();
        let mut i: usize = 0;
        assert(vs.skip(0) =~= vs);
        assert(vs.take(0) =~= Seq::<JetStreamV>::empty());
        assert(self@.streams =~= Seq::<JetStreamV>::empty());
        assert(self@ == (EjecutorV { streams: almacenar(vs.take(0), subject@, payload@).0, ..e0 }));
        while viejos.len() > 0
            invariant
                vs == e0.streams,
                e0 == old(self)@,
                streams_validos(e0),
                almacenable(vs, subject@),
                n == vs.len(),
                i + viejos@.len() == n,
                viejos@.map_values(|j: JetStream| j@) == vs.skip(i as int),
                self@ == (EjecutorV { streams: almacenar(vs.take(i as int), subject@, payload@).0, ..e0 }),
                vistas_acciones(acciones@) == a0 + almacenar(vs.take(i as int), subject@, payload@).1,
                self.repositorio() == old(self).repositorio(),
            decreases viejos@.len(),
        {
            let ghost w0 = viejos@;
            let mut js = viejos.remove(0);
            assert(viejos@ =~= w0.remove(0));
            assert(w0.map_values(|j: JetStream| j@)[0] == js@);
            assert(vs.skip(i as int)[0] == vs[i as int]);
            assert(vs.take(i + 1).drop_last() =~= vs.take(i as int));
            assert(vs.take(i + 1).last() == js@);
            assert(viejos@.map_values(|j: JetStream| j@) =~= w0.map_values(|j: JetStream| j@).drop_first());
            assert(vs.skip(i as int).drop_first() =~= vs.skip(i + 1));
            let ghost previo = self.js_streams@;
            let ghost ap = vistas_acciones(acciones@);
            if js.matches(subject) {
                assert(vs[i as int].subjects.len() > 0);
                js.store_msg(payload, acciones);
                assert(vistas_acciones(acciones@) =~= a0 + almacenar(vs.take(i + 1), subject@, payload@).1);
            }
            self.js_streams.push(js);
            assert(self.js_streams@ =~= previo.push(self.js_streams@[previo.len() as int]));
            assert(self.js_streams@.map_values(|j: JetStream| j@) =~= previo.map_values(|j: JetStream| j@).push(
                self.js_streams@[previo.len() as int]@,
            ));
            i = i + 1;
        }
        assert(vs.take(vs.len() as int) =~= vs);
        proof {
            lema_almacenar(vs, subject@, payload@);
        }
    }

    /// Entrega `cab + sid + cola` a cada suscripción conectada cuyo subject coincide.
    fn entregar_a_subs(
        &mut self,
        subject: &str,
        log: &Option<String>,
        cab: &str,
        cola: &str,
        conectados: &Vec<usize>,
        acciones: &mut Vec<Accion>,
    )
        requires
            entrega_segura(old(self)@.suscripciones, conectados@, subject@),
        ensures
            final(self)@ == (EjecutorV {
                suscripciones: entregar(
                    old(self)@.suscripciones,
                    conectados@,
                    subject@,
                    vista_opcional(*log),
                    cab@,
                    cola@,
                ).0,
                ..old(self)@
            }),
            vistas_acciones(final(acciones)@) == vistas_acciones(old(acciones)@) + entregar(
                old(self)@.suscripciones,
                conectados@,
                subject@,
                vista_opcional(*log),
                cab@,
                cola@,
            ).1,
            final(self).repositorio() == old(self).repositorio(),
    {
        let ghost e0 = self@;
        let ghost vs = self@.suscripciones;
        let ghost lg = vista_opcional(*log);
        let ghost a0 = vistas_acciones(acciones@);
        let mut viejas: Vec<Suscription> = Vec::new();
        std::mem::swap(&mut viejas, &mut self.suscriptions);
        let n = viejas.len();
        let mut i: usize = 0;
        assert(vs.skip(0) =~= vs);
        assert(vs.take(0) =~= Seq::<SuscripcionV>::empty());
        assert(self@.suscripciones =~= Seq::<SuscripcionV>::empty());
        assert(self@ == (EjecutorV {
            suscripciones: entregar(vs.take(0), conectados@, subject@, lg, cab@, cola@).0,
            ..e0
        }));
        while viejas.len() > 0
            invariant
                vs == e0.suscripciones,
                e0 == old(self)@,
                lg == vista_opcional(*log),
                entrega_segura(vs, conectados@, subject@),
                n == vs.len(),
                i + viejas@.len() == n,
                vistas_subs(viejas@) == vs.skip(i as int),
                self@ == (EjecutorV {
                    suscripciones: entregar(vs.take(i as int), conectados@, subject@, lg, cab@, cola@).0,
                    ..e0
                }),
                vistas_acciones(acciones@) == a0 + entregar(
                    vs.take(i as int),
                    conectados@,
                    subject@,
                    lg,
                    cab@,
                    cola@,
                ).1,
                self.repositorio() == old(self).repositorio(),
            decreases viejas@.len(),
        {
            let ghost w0 = viejas@;
            let mut sub = viejas.remove(0);
            assert(viejas@ =~= w0.remove(0));
            assert(vistas_subs(w0)[0] == sub@);
            assert(vs.skip(i as int)[0] == vs[i as int]);
            assert(vs.take(i + 1).drop_last() =~= vs.take(i as int));
            assert(vs.take(i + 1).last() == sub@);
            assert(vistas_subs(viejas@) =~= vistas_subs(w0).drop_first());
            assert(vs.skip(i as int).drop_first() =~= vs.skip(i + 1));
            let ghost previo = self.suscriptions@;
            if sub.matches(subject) && contiene(conectados, sub.connection_id) {
                sub.decrease_remaining_msgs();
                let mut m = String::from_str(cab);
                m.append(sub.sid.as_str());
                m.append(cola);
                let ghost ap = vistas_acciones(acciones@);
                agregar(
                    acciones,
                    Accion::Entregar { cliente: sub.connection_id, msg: m, log: copiar_opcional(log) },
                );
            }
            self.suscriptions.push(sub);
            assert(self.suscriptions@ =~= previo.push(self.suscriptions@[previo.len() as int]));
            assert(vistas_subs(self.suscriptions@) =~= vistas_subs(previo).push(
                self.suscriptions@[previo.len() as int]@,
            ));
            i = i + 1;
        }
        assert(vs.take(vs.len() as int) =~= vs);
    }

    /// Quita las suscripciones a las que no les quedan mensajes por recibir.
    fn quitar_agotadas(&mut self)
        ensures
            final(self)@ == (EjecutorV {
                suscripciones: sin_agotadas(old(self)@.suscripciones),
                ..old(self)@
            }),
            final(self).repositorio() == old(self).repositorio(),
    {
        let ghost e0 = self@;
        let ghost vs = self@.suscripciones;
        let mut viejas: Vec<Suscription> = Vec::new();
        std::mem::swap(&mut viejas, &mut self.suscriptions);
        let n = viejas.len();
        let mut i: usize = 0;
        assert(vs.skip(0) =~= vs);
        assert(sin_agotadas(vs.take(0)) =~= Seq::empty()) by {
            reveal(Seq::filter);
        }
        assert(vistas_subs(self.suscriptions@) =~= Seq::empty());
        while viejas.len() > 0
            invariant
                vs == e0.suscripciones,
                e0 == old(self)@,
                n == vs.len(),
                i + viejas@.len() == n,
                vistas_subs(viejas@) == vs.skip(i as int),
                self@ == (EjecutorV { suscripciones: sin_agotadas(vs.take(i as int)), ..e0 }),
                self.repositorio() == old(self).repositorio(),
            decreases viejas@.len(),
        {
            let ghost w0 = viejas@;
            let sub = viejas.remove(0);
            assert(viejas@ =~= w0.remove(0));
            assert(vistas_subs(w0)[0] == sub@);
            assert(vs.skip(i as int)[0] == vs[i as int]);
            assert(vs.take(i + 1).drop_last() =~= vs.take(i as int));
            assert(vs.take(i + 1).last() == sub@);
            assert(vistas_subs(viejas@) =~= vistas_subs(w0).drop_first());
            assert(vs.skip(i as int).drop_first() =~= vs.skip(i + 1));
            proof {
                reveal(Seq::filter);
            }
            let ghost previo = self.suscriptions@;
            if sub.max_msgs != Some(0usize) {
                self.suscriptions.push(sub);
                assert(vistas_subs(self.suscriptions@) =~= vistas_subs(previo).push(
                    self.suscriptions@[previo.len() as int]@,
                ));
            }
            i = i + 1;
        }
        assert(vs.take(vs.len() as int) =~= vs);
    }
}

/// Un `PUB` no hace fallar al ejecutor: si se publica, la carga está y los
/// streams y suscripciones que lo reciben pueden hacerlo.
pub open spec fn pub_seguro(e: EjecutorV, cs: Seq<usize>, c: usize, msg: Seq<char>) -> bool {
    match argumentos_pub(msg) {
        None => true,
        Some((subject, bytes, reply)) => (c == 0 || permitido(e, c, false, subject)) ==> {
            &&& (bytes != "0"@ ==> dividir_crlf(msg, '\r', '\n').len() >= 2)
            &&& almacenable(e.streams, subject)
            &&& entrega_segura(e.suscripciones, cs, subject)
        },
    }
}

/// Un `HPUB` no hace fallar al ejecutor: los bytes totales no son menos que los de encabezado.
pub open spec fn hpub_seguro(msg: Seq<char>) -> bool {
    match argumentos_hpub(msg) {
        Some((_, _, hb, tb)) => match (parse_usize_spec(tb), parse_usize_spec(hb)) {
            (Some(t), Some(h)) => t >= h,
            _ => true,
        },
        None => true,
    }
}

/// Una línea de un `HPUB` en curso no hace fallar al ejecutor: la cuenta de
/// bytes del encabezado no desborda y la entrega final es posible.
pub open spec fn linea_segura(e: EjecutorV, cs: Seq<usize>, m: Seq<char>) -> bool {
    match e.hpub {
        Some(h) => match h.fase {
            FaseV::Encabezado { acum, .. } => acum + encode_utf8(m).len() + 4 <= usize::MAX,
            FaseV::Cuerpo { saltar, .. } => !saltar ==> entrega_segura(
                e.suscripciones,
                cs,
                h.subject,
            ),
            FaseV::SinEncabezado => true,
        },
        None => true,
    }
}

impl<R: UsersRepository> CommandExecutor<R> {
    /// Publica `payload` en `subject`.
    fn publicar(
        &mut self,
        c: usize,
        subject: &str,
        bytes: &str,
        reply: &Option<String>,
        payload: &str,
        conectados: &Vec<usize>,
        acciones: &mut Vec<Accion>,
    ) -> (r: Result<(), ErroresServer>)
        requires
            streams_validos(old(self)@),
            almacenable(old(self)@.streams, subject@),
            entrega_segura(old(self)@.suscripciones, conectados@, subject@),
        ensures
            cumple(
                *old(self),
                *final(self),
                old(acciones)@,
                final(acciones)@,
                r,
                publicar(
                    old(self)@,
                    conectados@,
                    c,
                    subject@,
                    bytes@,
                    vista_opcional(*reply),
                    payload@,
                ),
            ),
            streams_validos(final(self)@),
    {
        let ghost a0 = vistas_acciones(acciones@);
        self.almacenar_en_streams(subject, payload, acciones);
        let ghost a1 = vistas_acciones(acciones@);
        let log = self.log_de_cliente(c);
        let mut cab = String::from_str("MSG ");
        cab.append(subject);
        cab.append(" ");
        let mut cola = String::from_str(" ");
        match reply {
            Some(r) => {
                cola.append(r.as_str());
                cola.append(" ");
            },
            None => {},
        }
        cola.append(bytes);
        cola.append("\r\n");
        cola.append(payload);
        cola.append("\r\n");
        assert(cab@ == cabeza("MSG "@, subject@));
        assert(cola@ == cola_msg(vista_opcional(*reply), bytes@, payload@));
        self.entregar_a_subs(subject, &log, cab.as_str(), cola.as_str(), conectados, acciones);
        assert(vistas_acciones(acciones@) =~= a0 + (almacenar(old(self)@.streams, subject@, payload@).1
            + entregar(
            old(self)@.suscripciones,
            conectados@,
            subject@,
            buscar(old(self)@.logs, c),
            cab@,
            cola@,
        ).1));
        if c != 0 && !contiene(conectados, c) {
            return Err(error_sin_conexion());
        }
        let ghost a2 = vistas_acciones(acciones@);
        if c != 0 {
            escribir_a(c, "+OK\r\n", acciones);
        }
        let ghost x = if c == 0 {
            Seq::<AccionV>::empty()
        } else {
            seq![ok(c)]
        };
        assert(vistas_acciones(acciones@) =~= a2 + x);
        assert(vistas_acciones(acciones@) =~= a0 + (almacenar(old(self)@.streams, subject@, payload@).1
            + entregar(
            old(self)@.suscripciones,
            conectados@,
            subject@,
            buscar(old(self)@.logs, c),
            cab@,
            cola@,
        ).1 + x));
        self.quitar_agotadas();
        Ok(())
    }

    /// `PUB subject [reply] bytes\r\npayload\r\n`.
    fn publish(&mut self, mensaje: &str, c: usize, conectados: &Vec<usize>, acciones: &mut Vec<Accion>) -> (r:
        Result<(), ErroresServer>)
        requires
            streams_validos(old(self)@),
            pub_seguro(old(self)@, conectados@, c, mensaje@),
        ensures
            cumple(
                *old(self),
                *final(self),
                old(acciones)@,
                final(acciones)@,
                r,
                paso_pub(old(self)@, conectados@, c, mensaje@),
            ),
            streams_validos(final(self)@),
    {
        let partes = crate::texto::dividir_crlf_exec(mensaje);
        assert(vistas(partes@)[0] == partes@[0]@);
        let sep = dividir_exec(partes[0].as_str(), ' ');
        let ghost vs = vistas(sep@);
        if sep.len() != 2 && sep.len() != 3 {
            let t = if sep.len() <= 1 {
                "tiene menos de dos parametros"
            } else {
                "tiene mas de tres parametros"
            };
            let mut m = String::from_str("El subject ");
            m.append(t);
            m.append(" ademas del PUB");
            let e = ErroresServer::InvalidSubject(m);
            let txt = e.to_string();
            let _ = enviar_error_a(conectados, c, txt.as_str(), acciones);
            return Ok(());
        }
        assert(vs[0] == sep@[0]@);
        assert(vs[1] == sep@[1]@);
        let subject = sep[0].clone();
        let (bytes, reply) = if sep.len() == 2 {
            (sep[1].clone(), None)
        } else {
            assert(vs[2] == sep@[2]@);
            (sep[2].clone(), Some(sep[1].clone()))
        };
        if !(c == 0 || self.check_permissions(c, false, subject.as_str())) {
            let e = ErroresServer::PublishPermissionsViolation(subject.clone());
            let t = e.to_string();
            let ghost a0 = vistas_acciones(acciones@);
            self.loggear(c, LogType::Error, t.as_str(), acciones);
            let r = enviar_error_a(conectados, c, t.as_str(), acciones);
            assert(vistas_acciones(acciones@) =~= a0 + (log_de(self@.logs, c, LogType::Error, t@)
                + enviar_error(conectados@, c, t@).0));
            return r;
        }
        let payload = if textos_iguales(bytes.as_str(), "0") {
            String::new()
        } else {
            assert(vistas(partes@)[1] == partes@[1]@);
            partes[1].clone()
        };
        self.publicar(
            c,
            subject.as_str(),
            bytes.as_str(),
            &reply,
            payload.as_str(),
            conectados,
            acciones,
        )
    }

    /// `HPUB subject [reply] header_bytes total_bytes`.
    fn hpublish(&mut self, mensaje: &str, c: usize, conectados: &Vec<usize>, acciones: &mut Vec<Accion>) -> (r:
        Result<(), ErroresServer>)
        requires
            hpub_seguro(mensaje@),
        ensures
            cumple(
                *old(self),
                *final(self),
                old(acciones)@,
                final(acciones)@,
                r,
                paso_hpub(old(self)@, conectados@, c, mensaje@),
            ),
    {
        let sep = dividir_exec(mensaje, ' ');
        let ghost vs = vistas(sep@);
        if sep.len() != 3 && sep.len() != 4 {
            let t = if sep.len() > 4 {
                "argumentos de mas (mas de 4)"
            } else {
                "argumentos de menos (menos de 3)"
            };
            let e = ErroresServer::InvalidSubject(String::from_str(t));
            let txt = e.to_string();
            return enviar_error_a(conectados, c, txt.as_str(), acciones);
        }
        assert(vs[0] == sep@[0]@);
        assert(vs[1] == sep@[1]@);
        assert(vs[2] == sep@[2]@);
        let subject = sep[0].clone();
        let (reply, hb, tb) = if sep.len() == 3 {
            (None, sep[1].clone(), sep[2].clone())
        } else {
            assert(vs[3] == sep@[3]@);
            (Some(sep[1].clone()), sep[2].clone(), sep[3].clone())
        };
        let t = match parse_usize(tb.as_str()) {
            Some(t) => t,
            None => {
                assert(vistas_acciones(acciones@) =~= vistas_acciones(acciones@) + Seq::empty());
                return Err(
                    ErroresServer::InternalError(
                        String::from_str("Error al parsear el String total_bytes en hpublish"),
                    ),
                );
            },
        };
        let h = match parse_usize(hb.as_str()) {
            Some(h) => h,
            None => {
                assert(vistas_acciones(acciones@) =~= vistas_acciones(acciones@) + Seq::empty());
                return Err(
                    ErroresServer::InternalError(
                        String::from_str("Error al parsear el String headers_bytes en hpublish"),
                    ),
                );
            },
        };
        let _bytes_payload = t - h;
        if !self.check_permissions(c, false, subject.as_str()) {
            let e = ErroresServer::PublishPermissionsViolation(subject.clone());
            let txt = e.to_string();
            let ghost a0 = vistas_acciones(acciones@);
            self.loggear(c, LogType::Error, txt.as_str(), acciones);
            let r = enviar_error_a(conectados, c, txt.as_str(), acciones);
            assert(vistas_acciones(acciones@) =~= a0 + (log_de(self@.logs, c, LogType::Error, txt@)
                + enviar_error(conectados@, c, txt@).0));
            return r;
        }
        let fase = if h > 0 {
            FaseHpub::Encabezado { acum: 0, header: String::new(), primera: true }
        } else {
            FaseHpub::SinEncabezado
        };
        self.hpub = Some(
            Hpub { cliente: c, subject, reply_to: reply, bytes_header: h, total_bytes: t, fase },
        );
        assert(vistas_acciones(acciones@) =~= vistas_acciones(acciones@) + Seq::empty());
        Ok(())
    }

    /// Un mensaje recibido mientras un `HPUB` junta sus líneas.
    fn linea_hpub(&mut self, m: &str, conectados: &Vec<usize>, acciones: &mut Vec<Accion>) -> (r:
        Result<(), ErroresServer>)
        requires
            old(self)@.hpub is Some,
            linea_segura(old(self)@, conectados@, m@),
        ensures
            cumple(
                *old(self),
                *final(self),
                old(acciones)@,
                final(acciones)@,
                r,
                paso_linea_hpub(old(self)@, conectados@, old(self)@.hpub->0, m@),
            ),
    {
        let ghost e0 = self@;
        let ghost a0 = vistas_acciones(acciones@);
        let h = match self.hpub.take() {
            Some(h) => h,
            None => {
                return Ok(());
            },
        };
        let Hpub { cliente, subject, reply_to, bytes_header, total_bytes, fase } = h;
        match fase {
            FaseHpub::Encabezado { acum, header, primera } => {
                let acum2 = acum + m.len() + 2;
                let header2 = if primera {
                    String::from_str(m)
                } else {
                    let mut x = header;
                    x.append("\r\n");
                    x.append(m);
                    x
                };
                let fase2 = if acum2 + 2 == bytes_header {
                    FaseHpub::Cuerpo { header: header2, saltar: true }
                } else {
                    FaseHpub::Encabezado { acum: acum2, header: header2, primera: false }
                };
                self.hpub = Some(Hpub { cliente, subject, reply_to, bytes_header, total_bytes, fase: fase2 });
                assert(vistas_acciones(acciones@) =~= a0 + Seq::empty());
                Ok(())
            },
            FaseHpub::SinEncabezado => {
                self.hpub = Some(
                    Hpub {
                        cliente,
                        subject,
                        reply_to,
                        bytes_header,
                        total_bytes,
                        fase: FaseHpub::Cuerpo { header: String::new(), saltar: true },
                    },
                );
                assert(vistas_acciones(acciones@) =~= a0 + Seq::empty());
                Ok(())
            },
            FaseHpub::Cuerpo { header, saltar } => {
                if saltar {
                    self.hpub = Some(
                        Hpub {
                            cliente,
                            subject,
                            reply_to,
                            bytes_header,
                            total_bytes,
                            fase: FaseHpub::Cuerpo { header, saltar: false },
                        },
                    );
                    assert(vistas_acciones(acciones@) =~= a0 + Seq::empty());
                    return Ok(());
                }
                let payload = if total_bytes > bytes_header {
                    String::from_str(m)
                } else {
                    String::new()
                };
                let log = self.log_de_cliente(cliente);
                let mut cab = String::from_str("HMSG ");
                cab.append(subject.as_str());
                cab.append(" ");
                let mut cola = String::from_str(" ");
                match &reply_to {
                    Some(r) => {
                        cola.append(r.as_str());
                        cola.append(" ");
                    },
                    None => {},
                }
                let d1 = usize_a_texto(bytes_header);
                cola.append(d1.as_str());
                cola.append(" ");
                let d2 = usize_a_texto(total_bytes);
                cola.append(d2.as_str());
                cola.append("\r\n");
                cola.append(header.as_str());
                cola.append("\r\n\r\n");
                cola.append(payload.as_str());
                cola.append("\r\n");
                assert(cab@ == cabeza("HMSG "@, subject@));
                assert(cola@ == cola_hmsg(
                    vista_opcional(reply_to),
                    bytes_header,
                    total_bytes,
                    header@,
                    payload@,
                ));
                self.entregar_a_subs(subject.as_str(), &log, cab.as_str(), cola.as_str(), conectados, acciones);
                self.quitar_agotadas();
                Ok(())
            },
        }
    }
}

/// Crear el stream no hace fallar al ejecutor: si es nuevo, tiene algún subject.
pub open spec fn crear_seguro(e: EjecutorV, msg: Seq<char>) -> bool {
    match stream_de_json(msg) {
        Some(js) => posicion_stream(e.streams, js.name) is None ==> js.subjects.len() > 0,
        None => true,
    }
}

impl<R: UsersRepository> CommandExecutor<R> {
    /// La posición del primer stream con ese nombre.
    fn buscar_stream(&self, nombre: &str) -> (r: Option<usize>)
        ensures
            match (r, posicion_stream(self@.streams, nombre@)) {
                (Some(i), Some(j)) => i == j,
                (None, None) => true,
                _ => false,
            },
            r matches Some(i) ==> i < self@.streams.len(),
    {
        let ghost ss = self@.streams;
        for i in 0..self.js_streams.len()
            invariant
                ss == self@.streams,
                ss.len() == self.js_streams@.len(),
                forall|j: int| 0 <= j < i ==> (#[trigger] ss[j]).name != nombre@,
        {
            assert(ss[i as int] == self.js_streams@[i as int]@);
            if textos_iguales(self.js_streams[i].nombre().as_str(), nombre) {
                let ghost p = posicion_stream(ss, nombre@);
                assert(p is Some);
                let ghost k = p->0;
                assert(k == i) by {
                    if k < i {
                        assert(ss[k].name != nombre@);
                    } else if k > i {
                        assert(ss[i as int].name != nombre@);
                    }
                }
                return Some(i);
            }
        }
        None
    }

    /// `$JS.API.STREAM.CREATE.<nombre> json`.
    fn create_stream(&mut self, mensaje: &str, c: usize, conectados: &Vec<usize>, acciones: &mut Vec<Accion>) -> (r:
        Result<(), ErroresServer>)
        requires
            streams_validos(old(self)@),
            crear_seguro(old(self)@, mensaje@),
        ensures
            cumple(
                *old(self),
                *final(self),
                old(acciones)@,
                final(acciones)@,
                r,
                paso_crear_stream(old(self)@, conectados@, c, mensaje@),
            ),
            streams_validos(final(self)@),
    {
        let json = recortar(mensaje);
        match JetStream::from_json(json.as_str()) {
            Ok(js) => {
                if self.buscar_stream(js.nombre().as_str()).is_some() {
                    assert(vistas_acciones(acciones@) =~= vistas_acciones(acciones@) + Seq::empty());
                    return Ok(());
                }
                let ghost a0 = vistas_acciones(acciones@);
                js.store_jetstream(acciones);
                let ghost antes = self.js_streams@;
                self.js_streams.push(js);
                assert(self.js_streams@.map_values(|j: JetStream| j@) =~= antes.map_values(
                    |j: JetStream| j@,
                ).push(js@));
                Ok(())
            },
            Err(e) => {
                let t = e.to_string();
                enviar_error_a(conectados, c, t.as_str(), acciones)
            },
        }
    }

    /// `$JS.API.CONSUMER.CREATE.<stream> json`.
    fn create_consumer(
        &mut self,
        nombre_stream: &str,
        mensaje: &str,
        c: usize,
        conectados: &Vec<usize>,
        acciones: &mut Vec<Accion>,
    ) -> (r: Result<(), ErroresServer>)
        requires
            streams_validos(old(self)@),
        ensures
            cumple(
                *old(self),
                *final(self),
                old(acciones)@,
                final(acciones)@,
                r,
                paso_crear_consumidor(old(self)@, conectados@, c, nombre_stream@, mensaje@),
            ),
            streams_validos(final(self)@),
    {
        let ghost a0 = vistas_acciones(acciones@);
        match self.buscar_stream(nombre_stream) {
            None => {
                let t = ErroresServer::StreamNotFound.to_string();
                self.loggear(c, LogType::Error, t.as_str(), acciones);
                let r = enviar_error_a(conectados, c, t.as_str(), acciones);
                assert(vistas_acciones(acciones@) =~= a0 + (log_de(self@.logs, c, LogType::Error, t@)
                    + enviar_error(conectados@, c, t@).0));
                r
            },
            Some(i) => {
                let json = recortar(mensaje);
                let cons = match PushConsumer::from_json(json.as_str()) {
                    Ok(x) => x,
                    Err(e) => {
                        assert(vistas_acciones(acciones@) =~= a0 + Seq::empty());
                        return Err(e);
                    },
                };
                self.agregar_consumidor(i, cons, acciones);
                Ok(())
            },
        }
    }

    /// Guarda el estado del consumidor y, si el stream `i` no tiene otro con su
    /// nombre, lanza el consumidor y lo agrega al stream.
    #[verifier::rlimit(30)]
    fn agregar_consumidor(&mut self, i: usize, cons: PushConsumer, acciones: &mut Vec<Accion>)
        requires
            i < old(self)@.streams.len(),
            streams_validos(old(self)@),
        ensures
            ({
                let e = old(self)@;
                let cv = cons@;
                let g = AccionV::GuardarCsv {
                    archivo: RESOURCES_PATH@ + CONSUMERS_PATH@,
                    clave: cv.name,
                    linea: linea_consumidor(cv),
                };
                let js = e.streams[i as int];
                if posicion_consumidor(js.consumers, cv.name) is Some {
                    &&& final(self)@ == e
                    &&& vistas_acciones(final(acciones)@) == vistas_acciones(old(acciones)@) + seq![g]
                } else {
                    let js2 = JetStreamV { consumers: js.consumers.push(cv), ..js };
                    &&& final(self)@ == (EjecutorV { streams: e.streams.update(i as int, js2), ..e })
                    &&& vistas_acciones(final(acciones)@) == vistas_acciones(old(acciones)@) + seq![
                        AccionV::CrearConsumidor {
                            stream: js.name,
                            nombre: cv.name,
                            delivery_subject: cv.delivery_subject,
                            last_ack: 0,
                        },
                        g,
                        guardar_relacion(js2),
                    ]
                }
            }),
            final(self).repositorio() == old(self).repositorio(),
            streams_validos(final(self)@),
    {
        let ghost a0 = vistas_acciones(acciones@);
        let mut archivo = String::from_str(crate::jetstream::RESOURCES_PATH);
        archivo.append(crate::jetstream::CONSUMERS_PATH);
        let g = Accion::GuardarCsv { archivo, clave: cons.nombre().clone(), linea: cons.to_csv() };
        let ghost e0 = self@;
        let ghost antes = self.js_streams@;
        let mut js = self.js_streams.remove(i);
        assert(js@ == e0.streams[i as int]);
        if js.buscar_consumidor(cons.nombre().as_str()).is_some() {
            agregar(acciones, g);
            self.js_streams.insert(i, js);
            assert(self.js_streams@ =~= antes);
            assert(vistas_acciones(acciones@) =~= a0 + seq![g@]);
            return;
        }
        agregar(
            acciones,
            Accion::CrearConsumidor {
                stream: js.nombre().clone(),
                nombre: cons.nombre().clone(),
                delivery_subject: cons.subject_de_entrega().clone(),
                last_ack: 0,
            },
        );
        agregar(acciones, g);
        let ghost cv = cons@;
        js.add_consumer(cons, acciones);
        let ghost js2 = js@;
        self.js_streams.insert(i, js);
        assert(self.js_streams@ =~= antes.update(i as int, self.js_streams@[i as int]));
        assert(self.js_streams@.map_values(|j: JetStream| j@) =~= e0.streams.update(i as int, js2));
        assert(vistas_acciones(acciones@) =~= a0 + seq![
            AccionV::CrearConsumidor {
                stream: e0.streams[i as int].name,
                nombre: cv.name,
                delivery_subject: cv.delivery_subject,
                last_ack: 0,
            },
            g@,
            guardar_relacion(js2),
        ]);
    }

    /// `$JS.ACK.stream.consumidor.id`.
    fn ack(&mut self, op: &str, c: usize, conectados: &Vec<usize>, acciones: &mut Vec<Accion>) -> (r:
        Result<(), ErroresServer>)
        requires
            streams_validos(old(self)@),
        ensures
            cumple(
                *old(self),
                *final(self),
                old(acciones)@,
                final(acciones)@,
                r,
                paso_ack(old(self)@, conectados@, c, op@),
            ),
            streams_validos(final(self)@),
    {
        let ps = dividir_exec(op, '.');
        let ghost vs = vistas(ps@);
        if ps.len() < 3 {
            let t = ErroresServer::ParserError.to_string();
            return enviar_error_a(conectados, c, t.as_str(), acciones);
        }
        assert(vs[0] == ps@[0]@);
        assert(vs[1] == ps@[1]@);
        assert(vs[2] == ps@[2]@);
        let id = match parse_usize(ps[2].as_str()) {
            Some(n) => n,
            None => {
                let t = ErroresServer::ParserError.to_string();
                return enviar_error_a(conectados, c, t.as_str(), acciones);
            },
        };
        match self.buscar_stream(ps[0].as_str()) {
            None => {
                let t = ErroresServer::StreamNotFound.to_string();
                enviar_error_a(conectados, c, t.as_str(), acciones)
            },
            Some(i) => {
                let ghost e0 = self@;
                let ghost antes = self.js_streams@;
                let mut js = self.js_streams.remove(i);
                assert(js@ == e0.streams[i as int]);
                let r = js.ack(ps[1].as_str(), id, acciones);
                let ghost js2 = js@;
                self.js_streams.insert(i, js);
                assert(self.js_streams@ =~= antes.update(i as int, self.js_streams@[i as int]));
                assert(self.js_streams@.map_values(|j: JetStream| j@) =~= e0.streams.update(
                    i as int,
                    js2,
                ));
                match r {
                    Ok(()) => Ok(()),
                    Err(e) => {
                        assert(self.js_streams@.map_values(|j: JetStream| j@) =~= e0.streams);
                        let t = e.to_string();
                        enviar_error_a(conectados, c, t.as_str(), acciones)
                    },
                }
            },
        }
    }
}

/// Las entradas sobre las que el ejecutor no falla: el comando no hace fallar
/// al ejecutor.
pub open spec fn sin_panico(e: EjecutorV, cs: Seq<usize>, c: usize, m: Seq<char>) -> bool {
    match e.hpub {
        Some(_) => linea_segura(e, cs, m),
        None => {
            let com = comando_de(m);
            let r = resto_de(m);
            &&& ((com == "PUB"@ || com == "pub"@) ==> pub_seguro(e, cs, c, r))
            &&& ((com == "HPUB"@ || com == "hpub"@) ==> hpub_seguro(r))
            &&& (empieza(com, "$JS.API.STREAM.CREATE."@) ==> crear_seguro(e, r))
        },
    }
}

/// La posición del primer espacio o tabulador del mensaje, o su largo si no tiene.
fn largo_comando(m: &str) -> (k: usize)
    ensures
        k <= m@.len(),
        (k < m@.len()) == (primer_espacio(m@) is Some),
        match primer_espacio(m@) {
            Some(i) => k == i,
            None => k == m@.len(),
        },
{
    let n = m.unicode_len();
    let mut k: usize = 0;
    while k < n && m.get_char(k) != ' ' && m.get_char(k) != '\t'
        invariant
            n == m@.len(),
            k <= n,
            forall|j: int| 0 <= j < k ==> !es_separador(#[trigger] m@[j]),
        decreases n - k,
    {
        k = k + 1;
    }
    if k < n {
        let ghost p = primer_espacio(m@);
        assert(es_separador(m@[k as int]));
        assert(p is Some);
        let ghost q = p->0;
        assert(q == k) by {
            if q < k {
                assert(!es_separador(m@[q]));
            } else if q > k {
                assert(!es_separador(m@[k as int]));
            }
        }
    }
    k
}

/// Separa el comando (hasta el primer espacio o tabulador) del resto del
/// mensaje, que empieza tras ese separador.
pub fn separar_comando_y_resto_de_mensaje(mensaje: String) -> (r: (String, String))
    ensures
        r.0@ == comando_de(mensaje@),
        r.1@ == resto_de(mensaje@),
{
    let m = mensaje.as_str();
    let k = largo_comando(m);
    let n = m.unicode_len();
    let comando = crate::texto::tramo(m, 0, k);
    assert(m@.subrange(0, k as int) =~= m@.take(k as int));
    let consumidos_: usize = if k < n {
        k + 1
    } else {
        k
    };
    let resto = crate::texto::tramo(m, consumidos_, n);
    assert(m@.subrange(consumidos_ as int, n as int) =~= m@.skip(consumidos_ as int));
    (comando, resto)
}

impl<R: UsersRepository> CommandExecutor<R> {
    /// Ejecuta un mensaje del cliente `cliente` (0 para un consumidor de
    /// JetStream), con los clientes `conectados`: actualiza el estado y agrega
    /// las acciones a realizar, en orden. Un error indica que el comando no se
    /// completó; el ejecutor sigue con el mensaje siguiente.
    pub fn ejecutar(
        &mut self,
        mensaje: String,
        cliente: usize,
        conectados: &Vec<usize>,
        acciones: &mut Vec<Accion>,
    ) -> (r: Result<(), ErroresServer>)
        requires
            streams_validos(old(self)@),
            sin_panico(old(self)@, conectados@, cliente, mensaje@),
        ensures
            cumple(
                *old(self),
                *final(self),
                old(acciones)@,
                final(acciones)@,
                r,
                paso(
                    old(self)@,
                    conectados@,
                    cliente,
                    mensaje@,
                    usuario_de(old(self).repositorio(), resto_de(mensaje@)),
                ),
            ),
            streams_validos(final(self)@),
    {
        let ghost e0 = self@;
        let ghost m = mensaje@;
        if self.hpub.is_some() {
            let r = self.linea_hpub(mensaje.as_str(), conectados, acciones);
            assert(cumple(*old(self), *self, old(acciones)@, acciones@, r, paso(e0, conectados@, cliente, m, None)));
            return r;
        }
        let (comando, resto) = separar_comando_y_resto_de_mensaje(mensaje);
        let cm = comando.as_str();
        let rs = resto.as_str();
        let c = cliente;
        if textos_iguales(cm, "CONSUMER_PUBLISH") || textos_iguales(cm, "PONG") || textos_iguales(
            cm,
            "pong",
        ) {
            assert(vistas_acciones(acciones@) =~= vistas_acciones(acciones@) + Seq::empty());
            assert(cumple(*old(self), *self, old(acciones)@, acciones@, Ok(()), paso(e0, conectados@, cliente, m, None)));
            return Ok(());
        }
        if textos_iguales(cm, "CONNECT") || textos_iguales(cm, "connect") {
            let r = self.connect(rs, c, conectados, acciones);
            return r;
        }
        let r = if textos_iguales(cm, "PUB") || textos_iguales(cm, "pub") {
            self.publish(rs, c, conectados, acciones)
        } else if textos_iguales(cm, "HPUB") || textos_iguales(cm, "hpub") {
            self.hpublish(rs, c, conectados, acciones)
        } else if textos_iguales(cm, "SUB") || textos_iguales(cm, "sub") {
            self.sub(rs, c, conectados, acciones)
        } else if textos_iguales(cm, "UNSUB") || textos_iguales(cm, "unsub") {
            self.unsub(rs, c, conectados, acciones)
        } else if textos_iguales(cm, "PING") || textos_iguales(cm, "ping") {
            responder(self, c, "PONG", conectados, acciones)
        } else if textos_iguales(cm, "SEND_PING") {
            responder(self, c, "PING", conectados, acciones)
        } else if textos_iguales(cm, "SHUTDOWN") {
            self.shutdown(c, conectados, acciones);
            Ok(())
        } else if textos_iguales(cm, "-ERR") || textos_iguales(cm, "-err") {
            enviar_error_a(conectados, c, rs, acciones)
        } else if empieza_con(cm, "$JS.API.STREAM.CREATE.") {
            self.create_stream(rs, c, conectados, acciones)
        } else if empieza_con(cm, "$JS.API.CONSUMER.CREATE.") {
            proof {
                reveal_strlit("$JS.API.CONSUMER.CREATE.");
            }
            let nombre = quitar_prefijos(cm, "$JS.API.CONSUMER.CREATE.");
            self.create_consumer(nombre.as_str(), rs, c, conectados, acciones)
        } else if empieza_con(cm, "$JS.ACK.") {
            proof {
                reveal_strlit("$JS.ACK.");
            }
            let op = quitar_prefijos(cm, "$JS.ACK.");
            self.ack(op.as_str(), c, conectados, acciones)
        } else {
            let t = ErroresServer::UnknownProtocolOperation.to_string();
            enviar_error_a(conectados, c, t.as_str(), acciones)
        };
        assert(cumple(*old(self), *self, old(acciones)@, acciones@, r, paso(e0, conectados@, cliente, m, None)));
        r
    }
}

/// Indica si los bytes totales de un `HPUB` no son menos que los de encabezado.
fn hpub_es_seguro(msg: &str) -> (r: bool)
    ensures
        r == hpub_seguro(msg@),
{
    let sep = dividir_exec(msg, ' ');
    let ghost vs = vistas(sep@);
    if sep.len() != 3 && sep.len() != 4 {
        return true;
    }
    assert(vs[1] == sep@[1]@);
    assert(vs[2] == sep@[2]@);
    let (hb, tb) = if sep.len() == 3 {
        (&sep[1], &sep[2])
    } else {
        assert(vs[3] == sep@[3]@);
        (&sep[2], &sep[3])
    };
    match (parse_usize(tb.as_str()), parse_usize(hb.as_str())) {
        (Some(t), Some(h)) => t >= h,
        _ => true,
    }
}

impl<R: UsersRepository> CommandExecutor<R> {
    /// Indica si cada stream cuyo subject coincide puede numerar un mensaje más.
    fn es_almacenable(&self, subject: &str) -> (r: bool)
        ensures
            r == almacenable(self@.streams, subject@),
    {
        let ghost ss = self@.streams;
        for i in 0..self.js_streams.len()
            invariant
                ss == self@.streams,
                ss.len() == self.js_streams@.len(),
                forall|j: int|
                    0 <= j < i && algun_patron_acepta((#[trigger] ss[j]).subjects, subject@)
                        ==> ss[j].id_counter < usize::MAX,
        {
            assert(ss[i as int] == self.js_streams@[i as int]@);
            if self.js_streams[i].matches(subject) && self.js_streams[i].siguiente_id() == usize::MAX {
                return false;
            }
        }
        true
    }

    /// Indica si ninguna suscripción conectada cuyo subject coincide se quedó sin mensajes.
    fn es_entrega_segura(&self, subject: &str, conectados: &Vec<usize>) -> (r: bool)
        ensures
            r == entrega_segura(self@.suscripciones, conectados@, subject@),
    {
        let ghost ss = self@.suscripciones;
        for i in 0..self.suscriptions.len()
            invariant
                ss == self@.suscripciones,
                ss.len() == self.suscriptions@.len(),
                forall|j: int|
                    0 <= j < i && coincide_subject((#[trigger] ss[j]).subject, subject@)
                        && conectados@.contains(ss[j].connection_id) ==> ss[j].max_msgs != Some(
                        0usize,
                    ),
        {
            assert(ss[i as int] == self.suscriptions@[i as int]@);
            if self.suscriptions[i].matches(subject) && contiene(
                conectados,
                self.suscriptions[i].connection_id,
            ) && self.suscriptions[i].max_msgs == Some(0usize) {
                return false;
            }
        }
        true
    }

    /// Indica si un `PUB` no hace fallar al ejecutor.
    fn pub_es_seguro(&self, msg: &str, c: usize, conectados: &Vec<usize>) -> (r: bool)
        ensures
            r == pub_seguro(self@, conectados@, c, msg@),
    {
        let partes = crate::texto::dividir_crlf_exec(msg);
        assert(vistas(partes@)[0] == partes@[0]@);
        let sep = dividir_exec(partes[0].as_str(), ' ');
        let ghost vs = vistas(sep@);
        if sep.len() != 2 && sep.len() != 3 {
            return true;
        }
        assert(vs[0] == sep@[0]@);
        assert(vs[1] == sep@[1]@);
        let subject = &sep[0];
        let bytes = if sep.len() == 2 {
            &sep[1]
        } else {
            assert(vs[2] == sep@[2]@);
            &sep[2]
        };
        if !(c == 0 || self.check_permissions(c, false, subject.as_str())) {
            return true;
        }
        let carga = textos_iguales(bytes.as_str(), "0") || partes.len() >= 2;
        carga && self.es_almacenable(subject.as_str()) && self.es_entrega_segura(
            subject.as_str(),
            conectados,
        )
    }

    /// Indica si crear el stream que describe el JSON no hace fallar al ejecutor.
    fn crear_es_seguro(&self, msg: &str) -> (r: bool)
        ensures
            r == crear_seguro(self@, msg@),
    {
        let json = recortar(msg);
        match JetStream::from_json(json.as_str()) {
            Ok(js) => self.buscar_stream(js.nombre().as_str()).is_some() || js.cantidad_subjects() > 0,
            Err(_) => true,
        }
    }

    /// Indica si ejecutar el mensaje no hace fallar al ejecutor.
    pub fn paso_seguro(&self, mensaje: &str, cliente: usize, conectados: &Vec<usize>) -> (r: bool)
        ensures
            r == sin_panico(self@, conectados@, cliente, mensaje@),
    {
        match &self.hpub {
            Some(h) => {
                assert(self@.hpub == Some(h@));
                match &h.fase {
                    FaseHpub::Encabezado { acum, .. } => {
                        let n = mensaje.as_bytes().len();
                        assert(n == encode_utf8(mensaje@).len());
                        let r = *acum <= usize::MAX - 4 && n <= usize::MAX - 4 - *acum;
                        assert(r == sin_panico(self@, conectados@, cliente, mensaje@));
                        r
                    },
                    FaseHpub::Cuerpo { saltar, .. } => {
                        let r = *saltar || self.es_entrega_segura(h.subject.as_str(), conectados);
                        assert(r == sin_panico(self@, conectados@, cliente, mensaje@));
                        r
                    },
                    FaseHpub::SinEncabezado => {
                        assert(sin_panico(self@, conectados@, cliente, mensaje@));
                        true
                    },
                }
            },
            None => {
                let (comando, resto) = separar_comando_y_resto_de_mensaje(String::from_str(mensaje));
                let cm = comando.as_str();
                let rs = resto.as_str();
                proof {
                    reveal_strlit("$JS.API.STREAM.CREATE.");
                    reveal_strlit("PUB");
                    reveal_strlit("pub");
                    reveal_strlit("HPUB");
                    reveal_strlit("hpub");
                    assert("PUB"@.len() == 3 && "pub"@.len() == 3);
                    assert("HPUB"@.len() == 4 && "hpub"@.len() == 4);
                    assert("$JS.API.STREAM.CREATE."@.len() == 22);
                    assert("PUB"@[0] == 'P' && "pub"@[0] == 'p');
                    assert("HPUB"@[0] == 'H' && "hpub"@[0] == 'h');
                    assert("$JS.API.STREAM.CREATE."@[0] == '$');
                }
                if textos_iguales(cm, "PUB") || textos_iguales(cm, "pub") {
                    let r = self.pub_es_seguro(rs, cliente, conectados);
                    assert(comando_de(mensaje@) == "PUB"@ || comando_de(mensaje@) == "pub"@);
                    assert(comando_de(mensaje@) != "HPUB"@ && comando_de(mensaje@) != "hpub"@);
                    assert(!empieza(comando_de(mensaje@), "$JS.API.STREAM.CREATE."@));
                    assert(r == pub_seguro(self@, conectados@, cliente, resto_de(mensaje@)));
                    assert(r == sin_panico(self@, conectados@, cliente, mensaje@));
                    r
                } else if textos_iguales(cm, "HPUB") || textos_iguales(cm, "hpub") {
                    let r = hpub_es_seguro(rs);
                    assert(r == sin_panico(self@, conectados@, cliente, mensaje@));
                    r
                } else if empieza_con(cm, "$JS.API.STREAM.CREATE.") {
                    let r = self.crear_es_seguro(rs);
                    assert(r == sin_panico(self@, conectados@, cliente, mensaje@));
                    r
                } else {
                    assert(sin_panico(self@, conectados@, cliente, mensaje@));
                    true
                }
            },
        }
    }

    /// Ejecuta el mensaje si no hace fallar al ejecutor (ver `paso_seguro`);
    /// si lo haría, no cambia nada y devuelve `None`.
    pub fn ejecutar_comando(
        &mut self,
        mensaje: String,
        cliente: usize,
        conectados: &Vec<usize>,
        acciones: &mut Vec<Accion>,
    ) -> (r: Option<Result<(), ErroresServer>>)
        requires
            streams_validos(old(self)@),
        ensures
            !sin_panico(old(self)@, conectados@, cliente, mensaje@) ==> (r is None && final(self)@
                == old(self)@ && final(acciones)@ == old(acciones)@),
            sin_panico(old(self)@, conectados@, cliente, mensaje@) ==> (r matches Some(res) && cumple(
                *old(self),
                *final(self),
                old(acciones)@,
                final(acciones)@,
                res,
                paso(
                    old(self)@,
                    conectados@,
                    cliente,
                    mensaje@,
                    usuario_de(old(self).repositorio(), resto_de(mensaje@)),
                ),
            )),
            streams_validos(final(self)@),
            final(self).repositorio() == old(self).repositorio(),
    {
        if !self.paso_seguro(mensaje.as_str(), cliente, conectados) {
            return None;
        }
        Some(self.ejecutar(mensaje, cliente, conectados, acciones))
    }
}

/// Las suscripciones que reciben un mensaje: conectadas y con un subject que coincide.
pub open spec fn receptoras(subs: Seq<SuscripcionV>, cs: Seq<usize>, subject: Seq<char>) -> Seq<SuscripcionV> {
    subs.filter(|s: SuscripcionV| coincide_subject(s.subject, subject) && cs.contains(s.connection_id))
}

/// Publicar entrega exactamente un mensaje a cada suscripción conectada cuyo
/// subject coincide, en el orden de las suscripciones, y conserva todas las
/// suscripciones (en la misma posición, con el mismo cliente y sid).
pub proof fn ley_una_entrega_por_receptora(
    subs: Seq<SuscripcionV>,
    cs: Seq<usize>,
    subject: Seq<char>,
    log: Option<Seq<char>>,
    cab: Seq<char>,
    cola: Seq<char>,
)
    ensures
        entregar(subs, cs, subject, log, cab, cola).1.len() == receptoras(subs, cs, subject).len(),
        forall|i: int|
            0 <= i < receptoras(subs, cs, subject).len() ==> #[trigger] entregar(
                subs,
                cs,
                subject,
                log,
                cab,
                cola,
            ).1[i] == (AccionV::Entregar {
                cliente: receptoras(subs, cs, subject)[i].connection_id,
                msg: cab + receptoras(subs, cs, subject)[i].sid + cola,
                log,
            }),
        entregar(subs, cs, subject, log, cab, cola).0.len() == subs.len(),
        forall|i: int|
            0 <= i < subs.len() ==> (#[trigger] entregar(subs, cs, subject, log, cab, cola).0[i]).sid
                == subs[i].sid && entregar(subs, cs, subject, log, cab, cola).0[i].connection_id
                == subs[i].connection_id,
    decreases subs.len(),
{
    reveal(Seq::filter);
    if subs.len() > 0 {
        ley_una_entrega_por_receptora(subs.drop_last(), cs, subject, log, cab, cola);
        let (ss, acts) = entregar(subs.drop_last(), cs, subject, log, cab, cola);
        let r = receptoras(subs.drop_last(), cs, subject);
        assert(receptoras(subs, cs, subject) == if coincide_subject(subs.last().subject, subject)
            && cs.contains(subs.last().connection_id) {
            r.push(subs.last())
        } else {
            r
        });
        assert forall|i: int| 0 <= i < subs.len() implies (#[trigger] entregar(
            subs,
            cs,
            subject,
            log,
            cab,
            cola,
        ).0[i]).sid == subs[i].sid && entregar(subs, cs, subject, log, cab, cola).0[i].connection_id
            == subs[i].connection_id by {
            if i < subs.len() - 1 {
                assert(subs.drop_last()[i] == subs[i]);
            }
        }
    }
}

/// La suscripción recibe lo que se publica en `subject` con los clientes `cs`
/// conectados: su subject coincide y su cliente está conectado.
pub open spec fn recibe(s: SuscripcionV, cs: Seq<usize>, subject: Seq<char>) -> bool {
    coincide_subject(s.subject, subject) && cs.contains(s.connection_id)
}

/// Cuántos mensajes recibe la suscripción `s` si se publica, en orden, en cada
/// subject de `pubs` (cada uno con los clientes conectados en ese momento):
/// cada entrega le descuenta uno y, agotado su máximo, se la quita.
pub open spec fn entregas_a(s: SuscripcionV, pubs: Seq<(Seq<usize>, Seq<char>)>) -> nat
    decreases pubs.len(),
{
    if pubs.len() == 0 || s.max_msgs == Some(0usize) {
        0
    } else if recibe(s, pubs[0].0, pubs[0].1) {
        1 + entregas_a(descontar(s), pubs.drop_first())
    } else {
        entregas_a(s, pubs.drop_first())
    }
}

/// Publicar descuenta un mensaje a cada suscripción que lo recibe y deja igual
/// a las demás; luego se quitan las agotadas, y a ninguna que quede le
/// quedan cero mensajes.
pub proof fn ley_entrega_descuenta(
    subs: Seq<SuscripcionV>,
    cs: Seq<usize>,
    subject: Seq<char>,
    log: Option<Seq<char>>,
    cab: Seq<char>,
    cola: Seq<char>,
)
    ensures
        entregar(subs, cs, subject, log, cab, cola).0.len() == subs.len(),
        forall|i: int|
            0 <= i < subs.len() ==> #[trigger] entregar(subs, cs, subject, log, cab, cola).0[i] == if recibe(
                subs[i],
                cs,
                subject,
            ) {
                descontar(subs[i])
            } else {
                subs[i]
            },
        forall|i: int|
            0 <= i < sin_agotadas(entregar(subs, cs, subject, log, cab, cola).0).len() ==> (
            #[trigger] sin_agotadas(entregar(subs, cs, subject, log, cab, cola).0)[i]).max_msgs != Some(0usize),
    decreases subs.len(),
{
    if subs.len() > 0 {
        ley_entrega_descuenta(subs.drop_last(), cs, subject, log, cab, cola);
        let ss = entregar(subs, cs, subject, log, cab, cola).0;
        assert forall|i: int| 0 <= i < subs.len() implies #[trigger] ss[i] == if recibe(subs[i], cs, subject) {
            descontar(subs[i])
        } else {
            subs[i]
        } by {
            if i < subs.len() - 1 {
                assert(subs.drop_last()[i] == subs[i]);
            }
        }
    }
    ley_sin_agotadas(entregar(subs, cs, subject, log, cab, cola).0);
}

/// Un `PUB` que pasa el análisis y los permisos y se publica bien deja, de
/// cada suscripción, la que resulta de descontarle el mensaje si lo recibió
/// (o la misma si no), sin las agotadas; ninguna de las que quedan tiene cero
/// mensajes por recibir.
pub proof fn ley_pub_descuenta(e: EjecutorV, cs: Seq<usize>, c: usize, msg: Seq<char>)
    ensures
        argumentos_pub(msg) matches Some((subject, bytes, reply)) ==> ((c == 0 || permitido(e, c, false, subject))
            && paso_pub(e, cs, c, msg).resultado is Ok ==> {
            let ss = entregar(
                e.suscripciones,
                cs,
                subject,
                buscar(e.logs, c),
                cabeza("MSG "@, subject),
                cola_msg(
                    reply,
                    bytes,
                    if bytes == "0"@ {
                        Seq::empty()
                    } else {
                        dividir_crlf(msg, '\r', '\n')[1]
                    },
                ),
            ).0;
            &&& paso_pub(e, cs, c, msg).estado.suscripciones == sin_agotadas(ss)
            &&& ss.len() == e.suscripciones.len()
            &&& forall|i: int|
                0 <= i < e.suscripciones.len() ==> #[trigger] ss[i] == if recibe(e.suscripciones[i], cs, subject) {
                    descontar(e.suscripciones[i])
                } else {
                    e.suscripciones[i]
                }
            &&& forall|i: int|
                0 <= i < sin_agotadas(ss).len() ==> (#[trigger] sin_agotadas(ss)[i]).max_msgs != Some(0usize)
        }),
{
    if let Some((subject, bytes, reply)) = argumentos_pub(msg) {
        let payload = if bytes == "0"@ {
            Seq::empty()
        } else {
            dividir_crlf(msg, '\r', '\n')[1]
        };
        ley_entrega_descuenta(
            e.suscripciones,
            cs,
            subject,
            buscar(e.logs, c),
            cabeza("MSG "@, subject),
            cola_msg(reply, bytes, payload),
        );
    }
}

/// Guardar un mensaje publicado en `subject`: cada stream que tiene un
/// subject que acepta a `subject` termina con el mensaje como último, con su
/// id anterior como número y el id siguiente, y se pide enviárselo a cada uno
/// de sus consumidores; los demás streams quedan igual.
pub proof fn ley_almacenar(streams: Seq<JetStreamV>, subject: Seq<char>, payload: Seq<char>)
    ensures
        almacenar(streams, subject, payload).0.len() == streams.len(),
        forall|i: int|
            0 <= i < streams.len() ==> {
                let js = #[trigger] streams[i];
                let r = almacenar(streams, subject, payload).0[i];
                &&& algun_patron_acepta(js.subjects, subject) ==> {
                    &&& r.messages.len() == js.messages.len() + 1
                    &&& r.messages.last() == (payload, js.id_counter)
                    &&& r.messages.drop_last() == js.messages
                    &&& r.id_counter == (js.id_counter + 1) as usize
                    &&& r.name == js.name
                    &&& r.subjects == js.subjects
                    &&& r.consumers == js.consumers
                }
                &&& !algun_patron_acepta(js.subjects, subject) ==> r == js
            },
        forall|i: int, k: int|
            0 <= i < streams.len() && algun_patron_acepta(streams[i].subjects, subject) && 0 <= k
                < streams[i].consumers.len() ==> almacenar(streams, subject, payload).1.contains(
                AccionV::EnviarAConsumidor {
                    stream: streams[i].name,
                    consumidor: (#[trigger] streams[i].consumers[k]).name,
                    msg: payload,
                    id: streams[i].id_counter,
                },
            ),
        forall|i: int|
            0 <= i < streams.len() && algun_patron_acepta((#[trigger] streams[i]).subjects, subject)
                ==> almacenar(streams, subject, payload).1.contains(
                AccionV::GuardarCsv {
                    archivo: streams[i].resources_path + streams[i].data_path,
                    clave: streams[i].name,
                    linea: crate::jetstream::linea_datos(almacenar(streams, subject, payload).0[i]),
                },
            ),
    decreases streams.len(),
{
    if streams.len() > 0 {
        let p = streams.drop_last();
        ley_almacenar(p, subject, payload);
        let (ss, acts) = almacenar(p, subject, payload);
        let n = streams.len() - 1;
        let js = streams[n];
        assert forall|i: int| 0 <= i < n implies streams[i] == p[i] by {}
        let r = almacenar(streams, subject, payload);
        assert forall|i: int|
            0 <= i < streams.len() implies {
                let js = #[trigger] streams[i];
                let ri = almacenar(streams, subject, payload).0[i];
                &&& algun_patron_acepta(js.subjects, subject) ==> {
                    &&& ri.messages.len() == js.messages.len() + 1
                    &&& ri.messages.last() == (payload, js.id_counter)
                    &&& ri.messages.drop_last() == js.messages
                    &&& ri.id_counter == (js.id_counter + 1) as usize
                    &&& ri.name == js.name
                    &&& ri.subjects == js.subjects
                    &&& ri.consumers == js.consumers
                }
                &&& !algun_patron_acepta(js.subjects, subject) ==> ri == js
            } by {
            if i < n {
                assert(r.0[i] == ss[i]);
                assert(p[i] == streams[i]);
            } else {
                assert(js.messages.push((payload, js.id_counter)).drop_last() =~= js.messages);
            }
        }
        assert forall|i: int, k: int|
            0 <= i < streams.len() && algun_patron_acepta(streams[i].subjects, subject) && 0 <= k
                < streams[i].consumers.len() implies r.1.contains(
                AccionV::EnviarAConsumidor {
                    stream: streams[i].name,
                    consumidor: (#[trigger] streams[i].consumers[k]).name,
                    msg: payload,
                    id: streams[i].id_counter,
                },
            ) by {
            let a = AccionV::EnviarAConsumidor {
                stream: streams[i].name,
                consumidor: streams[i].consumers[k].name,
                msg: payload,
                id: streams[i].id_counter,
            };
            if i < n {
                assert(p[i] == streams[i]);
                assert(p[i].consumers[k] == streams[i].consumers[k]);
                assert(acts.contains(a));
                let b = choose|b: int| 0 <= b < acts.len() && acts[b] == a;
                if algun_patron_acepta(js.subjects, subject) {
                    assert((acts + acciones_almacenar(js, payload))[b] == a);
                } else {
                    assert(r.1 == acts);
                }
            } else {
                let ex = acciones_almacenar(js, payload);
                assert(crate::jetstream::envios(js.name, js.consumers, payload, js.id_counter)[k] == a);
                assert(ex[k] == a);
                assert((acts + ex)[acts.len() + k] == a);
            }
        }
        assert forall|i: int|
            0 <= i < streams.len() && algun_patron_acepta((#[trigger] streams[i]).subjects, subject) implies r.1.contains(
                AccionV::GuardarCsv {
                    archivo: streams[i].resources_path + streams[i].data_path,
                    clave: streams[i].name,
                    linea: crate::jetstream::linea_datos(r.0[i]),
                },
            ) by {
            let a = AccionV::GuardarCsv {
                archivo: streams[i].resources_path + streams[i].data_path,
                clave: streams[i].name,
                linea: crate::jetstream::linea_datos(r.0[i]),
            };
            if i < n {
                assert(p[i] == streams[i]);
                assert(r.0[i] == ss[i]);
                assert(acts.contains(a));
                let b = choose|b: int| 0 <= b < acts.len() && acts[b] == a;
                if algun_patron_acepta(js.subjects, subject) {
                    assert((acts + acciones_almacenar(js, payload))[b] == a);
                } else {
                    assert(r.1 == acts);
                }
            } else {
                let ex = acciones_almacenar(js, payload);
                let m = js.consumers.len();
                assert(ex[m as int] == guardar_datos(con_mensaje(js, payload)));
                assert(r.0[i] == con_mensaje(js, payload));
                assert((acts + ex)[acts.len() + m as int] == a);
            }
        }
    }
}

/// Un `PUB` que pasa el análisis y los permisos y se publica bien guarda el
/// mensaje en cada stream que tiene un subject que acepta el suyo, como último
/// mensaje y con el id anterior del stream, y pide enviarlo a cada consumidor
/// de ese stream; los demás streams quedan igual.
pub proof fn ley_pub_almacena(e: EjecutorV, cs: Seq<usize>, c: usize, msg: Seq<char>)
    ensures
        argumentos_pub(msg) matches Some((subject, bytes, reply)) ==> ((c == 0 || permitido(e, c, false, subject))
            && paso_pub(e, cs, c, msg).resultado is Ok ==> {
            let payload = if bytes == "0"@ {
                Seq::empty()
            } else {
                dividir_crlf(msg, '\r', '\n')[1]
            };
            let d = paso_pub(e, cs, c, msg);
            &&& d.estado.streams.len() == e.streams.len()
            &&& forall|i: int|
                0 <= i < e.streams.len() ==> {
                    let js = #[trigger] e.streams[i];
                    &&& algun_patron_acepta(js.subjects, subject) ==> {
                        &&& d.estado.streams[i].messages.last() == (payload, js.id_counter)
                        &&& d.estado.streams[i].messages.drop_last() == js.messages
                        &&& d.estado.streams[i].consumers == js.consumers
                    }
                    &&& !algun_patron_acepta(js.subjects, subject) ==> d.estado.streams[i] == js
                }
            &&& forall|i: int, k: int|
                0 <= i < e.streams.len() && algun_patron_acepta(e.streams[i].subjects, subject) && 0 <= k
                    < e.streams[i].consumers.len() ==> d.acciones.contains(
                    AccionV::EnviarAConsumidor {
                        stream: e.streams[i].name,
                        consumidor: (#[trigger] e.streams[i].consumers[k]).name,
                        msg: payload,
                        id: e.streams[i].id_counter,
                    },
                )
        }),
{
    if let Some((subject, bytes, reply)) = argumentos_pub(msg) {
        let payload = if bytes == "0"@ {
            Seq::empty()
        } else {
            dividir_crlf(msg, '\r', '\n')[1]
        };
        ley_almacenar(e.streams, subject, payload);
        let d = paso_pub(e, cs, c, msg);
        if (c == 0 || permitido(e, c, false, subject)) && d.resultado is Ok {
            let (st2, acts1) = almacenar(e.streams, subject, payload);
            let (subs2, acts2) = entregar(
                e.suscripciones,
                cs,
                subject,
                buscar(e.logs, c),
                cabeza("MSG "@, subject),
                cola_msg(reply, bytes, payload),
            );
            assert(d.estado.streams == st2);
            assert forall|i: int, k: int|
                0 <= i < e.streams.len() && algun_patron_acepta(e.streams[i].subjects, subject) && 0 <= k
                    < e.streams[i].consumers.len() implies d.acciones.contains(
                    AccionV::EnviarAConsumidor {
                        stream: e.streams[i].name,
                        consumidor: (#[trigger] e.streams[i].consumers[k]).name,
                        msg: payload,
                        id: e.streams[i].id_counter,
                    },
                ) by {
                let a = AccionV::EnviarAConsumidor {
                    stream: e.streams[i].name,
                    consumidor: e.streams[i].consumers[k].name,
                    msg: payload,
                    id: e.streams[i].id_counter,
                };
                assert(acts1.contains(a));
                let b = choose|b: int| 0 <= b < acts1.len() && acts1[b] == a;
                let extra = if c == 0 { Seq::<AccionV>::empty() } else { seq![ok(c)] };
                assert(d.acciones == acts1 + acts2 + extra);
                assert((acts1 + acts2 + extra)[b] == a);
            }
        }
    }
}

/// Tras `UNSUB sid k`, la suscripción, que queda con máximo `k`, recibe a lo
/// sumo `k` mensajes más, se publique lo que se publique.
pub proof fn ley_a_lo_sumo_k(s: SuscripcionV, k: usize, pubs: Seq<(Seq<usize>, Seq<char>)>)
    requires
        s.max_msgs == Some(k),
    ensures
        entregas_a(s, pubs) <= k,
    decreases pubs.len(),
{
    if pubs.len() > 0 && k > 0 {
        if recibe(s, pubs[0].0, pubs[0].1) {
            ley_a_lo_sumo_k(descontar(s), (k - 1) as usize, pubs.drop_first());
        } else {
            ley_a_lo_sumo_k(s, k, pubs.drop_first());
        }
    }
}

/// Un `UNSUB` sin máximo del sid de un `SUB` aceptado, si el cliente no tenía
/// otra suscripción con ese sid, deja las suscripciones como estaban antes del `SUB`.
pub proof fn ley_unsub_deshace_sub(e: EjecutorV, cs: Seq<usize>, c: usize, msg_sub: Seq<char>, msg_unsub: Seq<char>)
    requires
        paso_sub(e, cs, c, msg_sub).estado.suscripciones.len() == e.suscripciones.len() + 1,
        palabras(msg_sub).len() >= 2,
        argumentos_unsub(msg_unsub) == Some((palabras(msg_sub)[1], None::<usize>)),
        posicion_sub(e.suscripciones, palabras(msg_sub)[1], c) is None,
    ensures
        paso_unsub(paso_sub(e, cs, c, msg_sub).estado, cs, c, msg_unsub).estado.suscripciones == e.suscripciones,
{
    let ps = palabras(msg_sub);
    let sid = ps[1];
    let e2 = paso_sub(e, cs, c, msg_sub).estado;
    let nueva = SuscripcionV { connection_id: c, subject: ps[0], max_msgs: None, sid };
    assert(e2.suscripciones == e.suscripciones.push(nueva));
    let subs = e2.suscripciones;
    let n = e.suscripciones.len() as int;
    assert(subs[n].sid == sid && subs[n].connection_id == c);
    let p = posicion_sub(subs, sid, c);
    assert(p == Some(n)) by {
        let q = p->0;
        if q < n {
            assert(subs[q] == e.suscripciones[q]);
            assert(!(e.suscripciones[q].sid == sid && e.suscripciones[q].connection_id == c));
        }
    }
    assert(subs.remove(n) =~= e.suscripciones);
}

/// Tras quitar las agotadas, a toda suscripción le queda algún mensaje por recibir.
pub proof fn ley_sin_agotadas(subs: Seq<SuscripcionV>)
    ensures
        forall|i: int|
            0 <= i < sin_agotadas(subs).len() ==> (#[trigger] sin_agotadas(subs)[i]).max_msgs
                != Some(0usize),
{
    let f = |s: SuscripcionV| s.max_msgs != Some(0usize);
    assert forall|i: int| 0 <= i < sin_agotadas(subs).len() implies (#[trigger] sin_agotadas(
        subs,
    )[i]).max_msgs != Some(0usize) by {
        subs.lemma_filter_pred(f, i);
    }
}

/// Tras un `SHUTDOWN`, el cliente no tiene ninguna suscripción y las de los
/// demás clientes siguen todas.
pub proof fn ley_shutdown_quita_al_cliente(e: EjecutorV, cs: Seq<usize>, c: usize)
    ensures
        forall|i: int|
            0 <= i < paso_shutdown(e, cs, c).estado.suscripciones.len() ==> (
            #[trigger] paso_shutdown(e, cs, c).estado.suscripciones[i]).connection_id != c,
        forall|i: int|
            0 <= i < e.suscripciones.len() && (#[trigger] e.suscripciones[i]).connection_id != c
                ==> paso_shutdown(e, cs, c).estado.suscripciones.contains(e.suscripciones[i]),
{
    let f = |s: SuscripcionV| s.connection_id != c;
    let r = paso_shutdown(e, cs, c).estado.suscripciones;
    assert(r == e.suscripciones.filter(f));
    assert forall|i: int| 0 <= i < r.len() implies (#[trigger] r[i]).connection_id != c by {
        e.suscripciones.lemma_filter_pred(f, i);
    }
    assert forall|i: int|
        0 <= i < e.suscripciones.len() && (#[trigger] e.suscripciones[i]).connection_id != c implies r.contains(
        e.suscripciones[i],
    ) by {
        e.suscripciones.lemma_filter_contains(f, i);
    }
}

/// Tras autenticarse un cliente, sus permisos son los de su usuario y su log
/// es el de su usuario, y los de los demás clientes no cambian.
pub proof fn ley_connect_asigna_permisos(
    e: EjecutorV,
    cs: Seq<usize>,
    c: usize,
    msg: Seq<char>,
    u: UsuarioV,
    otro: usize,
)
    requires
        cs.contains(c),
        e.auth_required,
        credenciales(msg) is Some,
    ensures
        ({
            let p = paso_connect(e, cs, c, msg, Some(u));
            &&& p.resultado is Ok
            &&& buscar(p.estado.permisos, c) == Some(PermisosV { subscribe: u.subscribe, publish: u.publish })
            &&& buscar(p.estado.logs, c) == Some(u.message_log)
            &&& otro != c ==> buscar(p.estado.permisos, otro) == buscar(e.permisos, otro)
            &&& otro != c ==> buscar(p.estado.logs, otro) == buscar(e.logs, otro)
        }),
{
    ley_buscar_poner(e.permisos, c, PermisosV { subscribe: u.subscribe, publish: u.publish }, otro);
    ley_buscar_poner(e.logs, c, u.message_log, otro);
}

/// Un cliente que no se autenticó, si se exige autenticación, no puede
/// suscribirse ni publicar en ningún subject.
pub proof fn ley_sin_autenticar_sin_permisos(e: EjecutorV, c: usize, suscribir: bool, subject: Seq<char>)
    requires
        e.auth_required,
        buscar(e.permisos, c) is None,
    ensures
        !permitido(e, c, suscribir, subject),
{
}

/// Las suscripciones cuyo subject coincide.
pub open spec fn coincidentes(subs: Seq<SuscripcionV>, subject: Seq<char>) -> Seq<SuscripcionV> {
    subs.filter(|s: SuscripcionV| coincide_subject(s.subject, subject))
}

impl<R: UsersRepository> CommandExecutor<R> {
    /// Una copia de las suscripciones cuyo subject coincide, en orden.
    pub fn _get_subscriptions(&self, subject: &str) -> (r: Result<Vec<Suscription>, ErroresServer>)
        ensures
            r matches Ok(v) && vistas_subs(v@) == coincidentes(self@.suscripciones, subject@),
    {
        let ghost vs = self@.suscripciones;
        let mut v: Vec<Suscription> = Vec::new();
        assert(coincidentes(vs.take(0), subject@) =~= Seq::empty()) by {
            reveal(Seq::filter);
        }
        assert(vistas_subs(v@) =~= Seq::empty());
        for i in 0..self.suscriptions.len()
            invariant
                vs == self@.suscripciones,
                vs.len() == self.suscriptions@.len(),
                vistas_subs(v@) == coincidentes(vs.take(i as int), subject@),
        {
            assert(vs.take(i + 1).drop_last() =~= vs.take(i as int));
            assert(vs.take(i + 1).last() == self.suscriptions@[i as int]@);
            proof {
                reveal(Seq::filter);
            }
            let s = &self.suscriptions[i];
            if s.matches(subject) {
                let ghost v0 = v@;
                v.push(Suscription::new(s.connection_id, s.subject.clone(), s.max_msgs, s.sid.clone()));
                assert(vistas_subs(v@) =~= vistas_subs(v0).push(s@));
            }
        }
        assert(vs.take(vs.len() as int) =~= vs);
        Ok(v)
    }

    /// Cuántas suscripciones hay.
    pub fn suscriptions_len(&self) -> (r: usize)
        ensures
            r == self@.suscripciones.len(),
    {
        self.suscriptions.len()
    }

    /// Si hay un `HPUB` juntando sus líneas.
    pub fn hpub_en_curso(&self) -> (r: bool)
        ensures
            r == self@.hpub is Some,
    {
        self.hpub.is_some()
    }

    /// Si todo stream tiene algún subject.
    pub fn es_valido(&self) -> (r: bool)
        ensures
            r == streams_validos(self@),
    {
        let ghost ss = self@.streams;
        for i in 0..self.js_streams.len()
            invariant
                ss == self@.streams,
                ss.len() == self.js_streams@.len(),
                forall|j: int| 0 <= j < i ==> (#[trigger] ss[j]).subjects.len() > 0,
        {
            assert(ss[i as int] == self.js_streams@[i as int]@);
            if self.js_streams[i].cantidad_subjects() == 0 {
                return false;
            }
        }
        true
    }
}

/// La confirmación que arma un consumidor (`Consumer::to_command`) para el
/// mensaje `id` se lee de vuelta: sin `$JS.ACK.` ni el `\r\n` final, sus
/// argumentos son el stream, el consumidor y el id, si ni el stream ni el
/// consumidor tienen puntos.
pub proof fn ley_ack_ida_y_vuelta(stream: Seq<char>, consumidor: Seq<char>, id: usize)
    requires
        !stream.contains('.'),
        !consumidor.contains('.'),
    ensures
        comando_ack(stream, consumidor, decimal(id as nat)) == "$JS.ACK."@ + (stream + "."@ + consumidor + "."@
            + decimal(id as nat)) + "\r\n"@,
        argumentos_ack(stream + "."@ + consumidor + "."@ + decimal(id as nat)) == Some((stream, consumidor, id)),
{
    reveal_strlit(".");
    let d = decimal(id as nat);
    assert(comando_ack(stream, consumidor, d) =~= "$JS.ACK."@ + (stream + "."@ + consumidor + "."@ + d) + "\r\n"@);
    assert("."@ =~= seq!['.']);
    crate::texto::lema_decimal(id as nat);
    lema_dividir_tres(stream, consumidor, d, '.');
    lema_parse_decimal(id);
    assert(stream + "."@ + consumidor + "."@ + d =~= stream + seq!['.'] + consumidor + seq!['.'] + d);
}

} // verus!
