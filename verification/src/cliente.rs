//! La lógica del cliente: sus errores, los mensajes que envía al servidor, la
//! validación y coincidencia de sus suscripciones, la lectura de los mensajes
//! que recibe y a qué suscripción va cada uno.
use vstd::prelude::*;
use vstd::string::*;
use vstd::utf8::encode_utf8;
use crate::texto::{largo_en_bytes, sin_prefijos, quitar_prefijos, vistas, decimal, usize_a_texto, dividir, dividir_exec, dividir_crlf, dividir_crlf_exec, recorte, recortar, parse_usize, parse_usize_spec, textos_iguales, palabras};
use crate::subject::{coincide_subject, subject_matches_token};
use crate::ejecutor::argumentos_pub;
use crate::texto::{lema_dividir_dos, lema_dividir_tres, lema_decimal_sin_blancos, lema_primera_linea, lema_segunda_linea};
use crate::cripto::{cifrado, encrypt, largo_relleno};

verus! {

/// Los errores del cliente.
#[derive(Debug)]
pub enum NatsClientError {
    InvalidSubject,
    InvalidParameter(String),
    InternalError(String),
    SubscriptionNotFound,
    ServerError(String),
    MalformedMessage,
}

/// Vista de un error del cliente.
pub enum ClienteErrorV {
    InvalidSubject,
    InvalidParameter(Seq<char>),
    InternalError(Seq<char>),
    SubscriptionNotFound,
    ServerError(Seq<char>),
    MalformedMessage,
}

impl View for NatsClientError {
    type V = ClienteErrorV;

    open spec fn view(&self) -> ClienteErrorV {
        match self {
            NatsClientError::InvalidSubject => ClienteErrorV::InvalidSubject,
            NatsClientError::InvalidParameter(p) => ClienteErrorV::InvalidParameter(p@),
            NatsClientError::InternalError(m) => ClienteErrorV::InternalError(m@),
            NatsClientError::SubscriptionNotFound => ClienteErrorV::SubscriptionNotFound,
            NatsClientError::ServerError(m) => ClienteErrorV::ServerError(m@),
            NatsClientError::MalformedMessage => ClienteErrorV::MalformedMessage,
        }
    }
}

/// El texto con que se muestra cada error del cliente.
pub open spec fn texto_error_cliente(e: ClienteErrorV) -> Seq<char> {
    match e {
        ClienteErrorV::InvalidSubject => "Invalid subject"@,
        ClienteErrorV::InvalidParameter(p) => "Invalid parameter: "@ + p,
        ClienteErrorV::InternalError(m) => "Internal error: "@ + m,
        ClienteErrorV::SubscriptionNotFound => "Subscription not found"@,
        ClienteErrorV::ServerError(m) => "Server error: "@ + m,
        ClienteErrorV::MalformedMessage => "Malformed message"@,
    }
}

impl NatsClientError {
    /// El texto con que se muestra el error.
    pub fn to_string(&self) -> (r: String)
        ensures
            r@ == texto_error_cliente(self@),
    {
        match self {
            NatsClientError::InvalidSubject => String::from_str("Invalid subject"),
            NatsClientError::InvalidParameter(p) => {
                let mut s = String::from_str("Invalid parameter: ");
                s.append(p.as_str());
                s
            },
            NatsClientError::InternalError(m) => {
                let mut s = String::from_str("Internal error: ");
                s.append(m.as_str());
                s
            },
            NatsClientError::SubscriptionNotFound => String::from_str("Subscription not found"),
            NatsClientError::ServerError(m) => {
                let mut s = String::from_str("Server error: ");
                s.append(m.as_str());
                s
            },
            NatsClientError::MalformedMessage => String::from_str("Malformed message"),
        }
    }
}

/// Las credenciales con que el cliente se conecta.
#[derive(Debug)]
pub struct User {
    pub user: String,
    pub pass: String,
}

impl User {
    /// Credenciales con ese usuario y contraseña.
    pub fn new(user: String, pass: String) -> (r: User)
        ensures
            r.user@ == user@,
            r.pass@ == pass@,
    {
        User { user, pass }
    }
}

/// El consumidor de JetStream que alimenta una suscripción: se le confirma
/// cada mensaje recibido.
#[derive(Debug)]
pub struct Consumer {
    name: String,
    stream_name: String,
}

/// La confirmación de un mensaje de un consumidor: `$JS.ACK.stream.nombre.id\r\n`.
pub open spec fn comando_ack(stream: Seq<char>, nombre: Seq<char>, id: Seq<char>) -> Seq<char> {
    "$JS.ACK."@ + stream + "."@ + nombre + "."@ + id + "\r\n"@
}

impl Consumer {
    /// El consumidor `name` del stream `stream_name`.
    pub fn new(stream_name: &str, name: &str) -> (r: Consumer)
        ensures
            r.nombre() == name@,
            r.stream() == stream_name@,
    {
        Consumer { name: String::from_str(name), stream_name: String::from_str(stream_name) }
    }

    /// El nombre del consumidor.
    pub closed spec fn nombre(&self) -> Seq<char> {
        self.name@
    }

    /// El stream del consumidor.
    pub closed spec fn stream(&self) -> Seq<char> {
        self.stream_name@
    }

    /// La confirmación del mensaje `ack_id`.
    pub fn to_command(&self, ack_id: &str) -> (r: String)
        ensures
            r@ == comando_ack(self.stream(), self.nombre(), ack_id@),
    {
        let mut s = String::from_str("$JS.ACK.");
        s.append(self.stream_name.as_str());
        s.append(".");
        s.append(self.name.as_str());
        s.append(".");
        s.append(ack_id);
        s.append("\r\n");
        s
    }

    /// Una copia del consumidor.
    pub fn copia(&self) -> (r: Consumer)
        ensures
            r.nombre() == self.nombre(),
            r.stream() == self.stream(),
    {
        Consumer { name: self.name.clone(), stream_name: self.stream_name.clone() }
    }
}

/// Algún token usa `*` junto a otros caracteres.
pub open spec fn comodin_invalido(s: Seq<char>) -> bool {
    let ts = dividir(s, '.');
    exists|i: int| 0 <= i < ts.len() && (#[trigger] ts[i]).contains('*') && ts[i].len() > 1
}

/// `>` aparece sin estar al final, o el último token termina en `>` junto a otros caracteres.
pub open spec fn comodin_total_invalido(s: Seq<char>) -> bool {
    let l = dividir(s, '.').last();
    ||| (s.contains('>') && !(s.len() > 0 && s.last() == '>'))
    ||| (l.len() > 0 && l.last() == '>' && l.len() > 1)
}

/// Los datos de una suscripción del cliente: su id, su subject, cuántos
/// mensajes le quedan (si se fijó) y el consumidor que la alimenta, si hay uno.
#[derive(Debug)]
pub struct SuscriptionHandler {
    pub id: usize,
    pub subject: String,
    pub max_msgs: Option<usize>,
    pub consumer: Option<Consumer>,
}

/// Indica si algún token usa `*` junto a otros caracteres.
fn tiene_comodin_invalido(s: &str) -> (r: bool)
    ensures
        r == comodin_invalido(s@),
{
    let ts = dividir_exec(s, '.');
    let ghost vs = vistas(ts@);
    for i in 0..ts.len()
        invariant
            vs == vistas(ts@),
            vs == dividir(s@, '.'),
            vs.len() == ts@.len(),
            forall|j: int| 0 <= j < i ==> !((#[trigger] vs[j]).contains('*') && vs[j].len() > 1),
    {
        assert(vs[i as int] == ts@[i as int]@);
        let t = ts[i].as_str();
        let n = t.unicode_len();
        let mut hay = false;
        for k in 0..n
            invariant
                n == t@.len(),
                hay == (exists|j: int| 0 <= j < k && t@[j] == '*'),
        {
            if t.get_char(k) == '*' {
                hay = true;
            }
        }
        assert(hay == t@.contains('*'));
        if hay && n > 1 {
            return true;
        }
    }
    false
}

/// Indica si `>` está mal usado.
fn tiene_comodin_total_invalido(s: &str) -> (r: bool)
    ensures
        r == comodin_total_invalido(s@),
{
    let n = s.unicode_len();
    let mut hay = false;
    for k in 0..n
        invariant
            n == s@.len(),
            hay == (exists|j: int| 0 <= j < k && s@[j] == '>'),
    {
        if s.get_char(k) == '>' {
            hay = true;
        }
    }
    assert(hay == s@.contains('>'));
    let termina = n > 0 && s.get_char(n - 1) == '>';
    let ts = dividir_exec(s, '.');
    let k = ts.len();
    assert(vistas(ts@)[k - 1] == ts@[k - 1]@);
    let l = ts[k - 1].as_str();
    let m = l.unicode_len();
    let ultimo_mal = m > 0 && l.get_char(m - 1) == '>' && m > 1;
    (hay && !termina) || ultimo_mal
}

impl SuscriptionHandler {
    /// Una suscripción con ese id y subject, alimentada por el consumidor dado;
    /// el subject no puede usar `*` junto a otros caracteres en un token ni
    /// `>` fuera del final o pegado a otros caracteres.
    pub fn new(id: usize, subject: &str, consumer: Option<Consumer>) -> (r: Result<
        SuscriptionHandler,
        NatsClientError,
    >)
        ensures
            (comodin_invalido(subject@) || comodin_total_invalido(subject@)) ==> (r matches Err(e)
                && e is InvalidSubject),
            !(comodin_invalido(subject@) || comodin_total_invalido(subject@)) ==> (r matches Ok(s)
                && s.id == id && s.subject@ == subject@ && s.max_msgs is None && s.consumer
                == consumer),
    {
        if tiene_comodin_total_invalido(subject) || tiene_comodin_invalido(subject) {
            return Err(NatsClientError::InvalidSubject);
        }
        Ok(SuscriptionHandler { id, subject: String::from_str(subject), max_msgs: None, consumer })
    }

    /// Indica si el subject recibido coincide con el de la suscripción.
    pub fn matches(&self, subject: &str) -> (r: bool)
        ensures
            r == coincide_subject(self.subject@, subject@),
    {
        subject_matches_token(self.subject.as_str(), subject)
    }
}

/// El `CONNECT` del cliente, con sus credenciales si las tiene.
pub open spec fn mensaje_connect(user: Option<(Seq<char>, Seq<char>)>) -> Seq<char> {
    "CONNECT {"@ + match user {
        Some((u, p)) => "\"user\":\""@ + u + "\",\"pass\":\""@ + p + "\""@,
        None => Seq::empty(),
    } + "}\r\n"@
}

/// Arma el `CONNECT` del cliente.
pub fn connect_msg(user: &Option<User>) -> (r: String)
    ensures
        r@ == mensaje_connect(
            match user {
                Some(u) => Some((u.user@, u.pass@)),
                None => None,
            },
        ),
{
    let mut s = String::from_str("CONNECT {");
    match user {
        Some(u) => {
            s.append("\"user\":\"");
            s.append(u.user.as_str());
            s.append("\",\"pass\":\"");
            s.append(u.pass.as_str());
            s.append("\"");
        },
        None => {},
    }
    s.append("}\r\n");
    s
}

/// Arma el `SUB subject sid\r\n`.
pub fn sub_msg(subject: &str, sid: usize) -> (r: String)
    ensures
        r@ == "SUB "@ + subject@ + " "@ + decimal(sid as nat) + "\r\n"@,
{
    let mut s = String::from_str("SUB ");
    s.append(subject);
    s.append(" ");
    let d = usize_a_texto(sid);
    s.append(d.as_str());
    s.append("\r\n");
    s
}

/// Arma el `UNSUB sid [max]\r\n`.
pub fn unsub_msg(sid: usize, max_msgs: Option<usize>) -> (r: String)
    ensures
        r@ == "UNSUB "@ + decimal(sid as nat) + match max_msgs {
            Some(m) => " "@ + decimal(m as nat),
            None => Seq::empty(),
        } + "\r\n"@,
{
    let mut s = String::from_str("UNSUB ");
    let d = usize_a_texto(sid);
    s.append(d.as_str());
    match max_msgs {
        Some(m) => {
            s.append(" ");
            let dm = usize_a_texto(m);
            s.append(dm.as_str());
        },
        None => {},
    }
    s.append("\r\n");
    s
}

/// Arma el pedido de crear un stream con ese subject y nombre.
pub fn create_stream_msg(subject: &str, name: &str) -> (r: String)
    ensures
        r@ == "$JS.API.STREAM.CREATE."@ + name@ + " { \"subjects\" : [\""@ + subject@ + "\"], \"name\": \""@
            + name@ + "\"}\r\n"@,
{
    let mut s = String::from_str("$JS.API.STREAM.CREATE.");
    s.append(name);
    s.append(" { \"subjects\" : [\"");
    s.append(subject);
    s.append("\"], \"name\": \"");
    s.append(name);
    s.append("\"}\r\n");
    s
}

/// Arma el pedido de crear un consumidor del stream que entrega en `delivery_subject`.
pub fn create_consumer_msg(stream_name: &str, consumer_name: &str, delivery_subject: &str) -> (r:
    String)
    ensures
        r@ == "$JS.API.CONSUMER.CREATE."@ + stream_name@ + " { \"delivery_subject\": \""@
            + delivery_subject@ + "\", \"name\": \""@ + consumer_name@ + "\"}\r\n"@,
{
    let mut s = String::from_str("$JS.API.CONSUMER.CREATE.");
    s.append(stream_name);
    s.append(" { \"delivery_subject\": \"");
    s.append(delivery_subject);
    s.append("\", \"name\": \"");
    s.append(consumer_name);
    s.append("\"}\r\n");
    s
}

/// El `PUB` de una carga: `PUB subject [reply] largo\r\ncarga\r\n`, con el
/// largo de la carga cifrada; `None` si no se pudo cifrar.
pub open spec fn mensaje_pub(subject: Seq<char>, payload: Seq<char>, reply: Option<Seq<char>>) -> Option<
    Seq<char>,
> {
    match cifrado(encode_utf8(payload)) {
        Some(c) => Some(
            "PUB "@ + subject + " "@ + match reply {
                Some(r) => r + " "@,
                None => Seq::empty(),
            } + decimal(c.len()) + "\r\n"@ + payload + "\r\n"@,
        ),
        None => None,
    }
}

/// El servidor lee de vuelta el `PUB` que arma el cliente: tras `PUB `, sus
/// argumentos son el subject, el largo cifrado de la carga y, si se dio, el
/// subject de respuesta, siempre que ni el subject ni la respuesta tengan
/// espacios ni saltos de línea; y su segunda línea es la carga, si no tiene
/// saltos de línea.
pub proof fn ley_pub_se_lee(subject: Seq<char>, payload: Seq<char>, reply: Option<Seq<char>>)
    requires
        !subject.contains(' '),
        !subject.contains('\n'),
        reply matches Some(r) ==> !r.contains(' ') && !r.contains('\n'),
    ensures
        mensaje_pub(subject, payload, reply) matches Some(m) ==> {
            &&& m.take(4) == "PUB "@
            &&& argumentos_pub(m.skip(4)) == Some(
                (subject, decimal(cifrado(encode_utf8(payload))->0.len()), reply),
            )
            &&& !payload.contains('\n') ==> dividir_crlf(m.skip(4), '\r', '\n')[1] == payload
        },
{
    reveal_strlit("PUB ");
    reveal_strlit(" ");
    reveal_strlit("\r\n");
    if let Some(m) = mensaje_pub(subject, payload, reply) {
        let d = decimal(cifrado(encode_utf8(payload))->0.len());
        lema_decimal_sin_blancos(cifrado(encode_utf8(payload))->0.len());
        let cola = payload + "\r\n"@;
        assert(" "@ =~= seq![' ']);
        assert("\r\n"@ =~= seq!['\r', '\n']);
        assert("PUB "@.len() == 4);
        match reply {
            Some(r) => {
                let linea = subject + seq![' '] + r + seq![' '] + d;
                assert(m =~= "PUB "@ + (linea + seq!['\r', '\n'] + cola));
                assert(m.skip(4) =~= linea + seq!['\r', '\n'] + cola);
                assert(!linea.contains('\n')) by {
                    if linea.contains('\n') {
                        let k = choose|k: int| 0 <= k < linea.len() && linea[k] == '\n';
                        if k < subject.len() {
                            assert(subject[k] == '\n');
                        } else if k == subject.len() {
                        } else if k < subject.len() + 1 + r.len() {
                            assert(r[k - subject.len() - 1] == '\n');
                        } else if k == subject.len() + 1 + r.len() {
                        } else {
                            assert(d[k - subject.len() - 2 - r.len()] == '\n');
                        }
                    }
                }
                lema_primera_linea(linea, cola);
                lema_dividir_tres(subject, r, d, ' ');
                if !payload.contains('\n') {
                    lema_segunda_linea(linea, payload, Seq::empty());
                    assert(linea + seq!['\r', '\n'] + payload + seq!['\r', '\n'] + Seq::<char>::empty() =~= m.skip(4));
                }
            },
            None => {
                let linea = subject + seq![' '] + d;
                assert(m =~= "PUB "@ + (linea + seq!['\r', '\n'] + cola));
                assert(m.skip(4) =~= linea + seq!['\r', '\n'] + cola);
                assert(!linea.contains('\n')) by {
                    if linea.contains('\n') {
                        let k = choose|k: int| 0 <= k < linea.len() && linea[k] == '\n';
                        if k < subject.len() {
                            assert(subject[k] == '\n');
                        } else if k > subject.len() {
                            assert(d[k - subject.len() - 1] == '\n');
                        }
                    }
                }
                lema_primera_linea(linea, cola);
                lema_dividir_dos(subject, d, ' ');
                if !payload.contains('\n') {
                    lema_segunda_linea(linea, payload, Seq::empty());
                    assert(linea + seq!['\r', '\n'] + payload + seq!['\r', '\n'] + Seq::<char>::empty() =~= m.skip(4));
                }
            },
        }
    }
}

/// Si la suscripción `k` coincide, hay una primera que coincide, no después de `k`.
proof fn lema_hay_primera(subs: Seq<SuscripcionClienteV>, subject: Seq<char>, k: int)
    requires
        0 <= k < subs.len(),
        coincide_subject(subs[k].subject, subject),
    ensures
        exists|i: int|
            0 <= i < subs.len() && coincide_subject(subs[i].subject, subject) && forall|j: int|
                0 <= j < i ==> !coincide_subject(subs[j].subject, subject),
    decreases k,
{
    if exists|j: int| 0 <= j < k && coincide_subject(subs[j].subject, subject) {
        let j = choose|j: int| 0 <= j < k && coincide_subject(subs[j].subject, subject);
        lema_hay_primera(subs, subject, j);
    } else {
        assert(forall|j: int| 0 <= j < k ==> !coincide_subject(subs[j].subject, subject));
    }
}

/// La primera suscripción que coincide, si la hay, coincide y ninguna anterior
/// coincide; y la hay si alguna coincide.
proof fn lema_primera(subs: Seq<SuscripcionClienteV>, subject: Seq<char>)
    ensures
        primera_coincidente(subs, subject) matches Some(i) ==> 0 <= i < subs.len() && coincide_subject(
            subs[i].subject,
            subject,
        ),
        (exists|k: int| 0 <= k < subs.len() && coincide_subject(subs[k].subject, subject)) ==> primera_coincidente(
            subs,
            subject,
        ) is Some,
{
    if exists|k: int| 0 <= k < subs.len() && coincide_subject(subs[k].subject, subject) {
        let k = choose|k: int| 0 <= k < subs.len() && coincide_subject(subs[k].subject, subject);
        lema_hay_primera(subs, subject, k);
    }
}

/// Entregar a la primera suscripción que coincide: si no tenía máximo sigue
/// en la lista, igual, y un mensaje siguiente del mismo subject vuelve a
/// tener a quién entregarse; con máximo `m > 1` sigue con `m - 1`; con
/// máximo 1 sale; las demás suscripciones siguen todas.
pub proof fn ley_entrega_conserva(subs: Seq<SuscripcionClienteV>, subject: Seq<char>)
    ensures
        primera_coincidente(subs, subject) matches Some(i) ==> {
            let s = subs[i];
            let r = tras_entrega(subs, i);
            &&& s.max_msgs is None ==> r.len() == subs.len() && r.contains(s) && primera_coincidente(
                r,
                subject,
            ) is Some
            &&& (s.max_msgs matches Some(m) && m > 1) ==> r.len() == subs.len() && r.contains(
                SuscripcionClienteV { max_msgs: Some((s.max_msgs->0 - 1) as usize), ..s },
            )
            &&& s.max_msgs == Some(1usize) ==> r.len() + 1 == subs.len()
            &&& forall|j: int| 0 <= j < subs.len() && j != i ==> r.contains(#[trigger] subs[j])
        },
{
    lema_primera(subs, subject);
    if let Some(i) = primera_coincidente(subs, subject) {
        let s = subs[i];
        let r = tras_entrega(subs, i);
        let q = subs.remove(i);
        assert(coincide_subject(s.subject, subject));
        assert forall|j: int| 0 <= j < subs.len() && j != i implies r.contains(#[trigger] subs[j]) by {
            let k = if j < i { j } else { j - 1 };
            assert(q[k] == subs[j]);
            if s.max_msgs == Some(1usize) {
                assert(r == q);
            } else {
                assert(r[k] == q[k]);
            }
        }
        if s.max_msgs is None {
            assert(r == q.push(s));
            assert(r[q.len() as int] == s);
            assert(coincide_subject(r[q.len() as int].subject, subject));
            lema_primera(r, subject);
        }
        if let Some(m) = s.max_msgs {
            if m > 1 {
                assert(r[q.len() as int] == SuscripcionClienteV { max_msgs: Some((m - 1) as usize), ..s });
            }
        }
    }
}

/// Arma el `PUB` de una carga (vacía si no se da).
pub fn pub_msg(subject: &str, payload: Option<&str>, reply_subject: Option<&str>) -> (r: Result<
    String,
    NatsClientError,
>)
    ensures
        ({
            let p = match payload {
                Some(p) => p@,
                None => Seq::empty(),
            };
            let rp = match reply_subject {
                Some(x) => Some(x@),
                None => None,
            };
            match mensaje_pub(subject@, p, rp) {
                Some(m) => r matches Ok(s) && s@ == m,
                None => r matches Err(e) && e@ == ClienteErrorV::InternalError(
                    "Error al encriptar el mensaje"@,
                ),
            }
        }),
{
    let mut s = String::from_str("PUB ");
    s.append(subject);
    s.append(" ");
    match reply_subject {
        Some(x) => {
            s.append(x);
            s.append(" ");
        },
        None => {},
    }
    let p = match payload {
        Some(p) => p,
        None => "",
    };
    proof {
        reveal_strlit("");
    }
    let _n = largo_en_bytes(p);
    let enc = match encrypt(p.as_bytes()) {
        Ok(v) => v,
        Err(_) => {
            return Err(
                NatsClientError::InternalError(String::from_str("Error al encriptar el mensaje")),
            );
        },
    };
    let d = usize_a_texto(enc.len());
    s.append(d.as_str());
    s.append("\r\n");
    s.append(p);
    s.append("\r\n");
    Ok(s)
}

/// El largo cifrado de un texto enviado por líneas: por cada tramo entre
/// `\r\n`, dos bytes más el largo de su cifrado si no está vacío; `None` si
/// algún tramo no se pudo cifrar.
pub open spec fn largo_cifrado(partes: Seq<Seq<char>>) -> Option<int>
    decreases partes.len(),
{
    if partes.len() == 0 {
        Some(0)
    } else {
        match largo_cifrado(partes.drop_last()) {
            Some(a) => {
                let p = partes.last();
                if p.len() == 0 {
                    Some(a + 2)
                } else {
                    match cifrado(encode_utf8(p)) {
                        Some(c) => Some(a + 2 + c.len()),
                        None => None,
                    }
                }
            },
            None => None,
        }
    }
}

/// El largo cifrado de los tramos, sumado tramo por tramo: dos bytes por
/// tramo más, si no está vacío, sus bytes rellenados al siguiente múltiplo de 16.
pub open spec fn largo_tramos(partes: Seq<Seq<char>>) -> int
    decreases partes.len(),
{
    if partes.len() == 0 {
        0
    } else {
        let p = partes.last();
        largo_tramos(partes.drop_last()) + 2 + if p.len() == 0 {
            0
        } else {
            largo_relleno(encode_utf8(p).len()) as int
        }
    }
}

/// El largo cifrado no es negativo.
proof fn lema_largo_no_negativo(ps: Seq<Seq<char>>)
    ensures
        largo_cifrado(ps) matches Some(n) ==> n >= 0,
    decreases ps.len(),
{
    if ps.len() > 0 {
        lema_largo_no_negativo(ps.drop_last());
    }
}

/// Si un tramo no se pudo cifrar, el texto tampoco.
proof fn lema_largo_fallido(ps: Seq<Seq<char>>, k: int)
    requires
        0 <= k <= ps.len(),
        largo_cifrado(ps.take(k)) is None,
    ensures
        largo_cifrado(ps) is None,
    decreases ps.len() - k,
{
    if k == ps.len() {
        assert(ps.take(k) =~= ps);
    } else {
        assert(ps.take(k + 1).drop_last() =~= ps.take(k));
        lema_largo_fallido(ps, k + 1);
    }
}

/// El largo cifrado del texto, en un entero que no desborda.
fn suma_cifrada(data: &str) -> (r: Result<u128, NatsClientError>)
    ensures
        r is Ok,
        largo_cifrado(dividir_crlf(data@, '\r', '\n')) == Some(largo_tramos(dividir_crlf(data@, '\r', '\n'))),
        match largo_cifrado(dividir_crlf(data@, '\r', '\n')) {
            Some(n) => r matches Ok(m) && m == n,
            None => r matches Err(e) && e@ == ClienteErrorV::InternalError("Error al encriptar"@),
        },
{
    let partes = dividir_crlf_exec(data);
    let ghost ps = vistas(partes@);
    let mut total: u128 = 0;
    assert(ps.take(0) =~= Seq::<Seq<char>>::empty());
    for i in 0..partes.len()
        invariant
            ps == vistas(partes@),
            ps == dividir_crlf(data@, '\r', '\n'),
            ps.len() == partes@.len(),
            partes@.len() <= usize::MAX,
            largo_cifrado(ps.take(i as int)) == Some(total as int),
            largo_tramos(ps.take(i as int)) == total as int,
            total as int <= i as int * (isize::MAX as int + 18),
    {
        assert((i as int + 1) * (isize::MAX as int + 18) <= u128::MAX as int) by (nonlinear_arith)
            requires
                i < partes@.len() <= usize::MAX,
                usize::MAX as int <= 0xffff_ffff_ffff_ffff,
                isize::MAX as int <= 0x7fff_ffff_ffff_ffff,
                isize::MAX >= 0,
        ;
        assert(total as int + isize::MAX as int + 18 <= (i as int + 1) * (isize::MAX as int + 18))
            by (nonlinear_arith)
            requires
                total as int <= i as int * (isize::MAX as int + 18),
        ;
        assert(ps.take(i + 1).drop_last() =~= ps.take(i as int));
        assert(ps.take(i + 1).last() == partes@[i as int]@);
        let t = partes[i].as_str();
        if t.unicode_len() == 0 {
            total = total + 2;
        } else {
            let n = largo_en_bytes(t);
            let b = t.as_bytes();
            assert(b@.len() == n);
            match encrypt(b) {
                Ok(c) => {
                    total = total + 2 + c.len() as u128;
                },
                Err(_) => {
                    proof {
                        lema_largo_fallido(ps, i + 1);
                    }
                    return Err(NatsClientError::InternalError(String::from_str("Error al encriptar")));
                },
            }
        }
    }
    assert(ps.take(ps.len() as int) =~= ps);
    Ok(total)
}

/// El largo cifrado del texto enviado por líneas.
fn calc_encrypted_len(data: &str) -> (r: Result<usize, NatsClientError>)
    requires
        largo_cifrado(dividir_crlf(data@, '\r', '\n')) matches Some(n) ==> n <= usize::MAX,
    ensures
        r matches Ok(m) && m == largo_tramos(dividir_crlf(data@, '\r', '\n')),
        match largo_cifrado(dividir_crlf(data@, '\r', '\n')) {
            Some(n) => r matches Ok(m) && m == n,
            None => r matches Err(e) && e@ == ClienteErrorV::InternalError("Error al encriptar"@),
        },
{
    match suma_cifrada(data) {
        Ok(n) => Ok(n as usize),
        Err(e) => Err(e),
    }
}

/// El `HPUB` con encabezados y carga, que se escribe sin cifrar:
/// `HPUB subject h t\r\nencabezados\r\n\r\ncarga\r\n`, con `h` el largo
/// cifrado de los encabezados (con `\r\n\r\n`) y `t` el de encabezados y carga;
/// `None` si algo no se pudo cifrar.
pub open spec fn mensaje_hpub(subject: Seq<char>, headers: Seq<char>, payload: Seq<char>) -> Option<
    Seq<char>,
> {
    let hs = headers + "\r\n\r\n"@;
    match (largo_cifrado(dividir_crlf(hs, '\r', '\n')), largo_cifrado(dividir_crlf(payload, '\r', '\n'))) {
        (Some(h), Some(p)) => Some(
            "HPUB "@ + subject + " "@ + decimal(h as nat) + " "@ + decimal((h + p) as nat) + "\r\n"@
                + hs + payload + "\r\n"@,
        ),
        _ => None,
    }
}

/// Los largos cifrados de encabezados y carga caben, juntos, en un `usize`.
pub open spec fn largos_acotados(headers: Seq<char>, payload: Seq<char>) -> bool {
    let hs = headers + "\r\n\r\n"@;
    match (largo_cifrado(dividir_crlf(hs, '\r', '\n')), largo_cifrado(dividir_crlf(payload, '\r', '\n'))) {
        (Some(h), Some(p)) => h + p <= usize::MAX,
        (Some(h), None) => h <= usize::MAX,
        _ => true,
    }
}

/// Arma el `HPUB` con encabezados y carga.
pub fn hpub_msg(subject: &str, headers: &str, payload: &str) -> (r: Result<String, NatsClientError>)
    requires
        largos_acotados(headers@, payload@),
    ensures
        match mensaje_hpub(subject@, headers@, payload@) {
            Some(m) => r matches Ok(s) && s@ == m,
            None => r matches Err(e) && e@ == ClienteErrorV::InternalError("Error al encriptar"@),
        },
{
    let mut hs = String::from_str(headers);
    hs.append("\r\n\r\n");
    proof {
        lema_largo_no_negativo(dividir_crlf(hs@, '\r', '\n'));
        lema_largo_no_negativo(dividir_crlf(payload@, '\r', '\n'));
    }
    let h = match calc_encrypted_len(hs.as_str()) {
        Ok(h) => h,
        Err(e) => {
            return Err(e);
        },
    };
    let p = match calc_encrypted_len(payload) {
        Ok(p) => p,
        Err(e) => {
            return Err(e);
        },
    };
    let total = h + p;
    let mut m = String::from_str("HPUB ");
    m.append(subject);
    m.append(" ");
    let dh = usize_a_texto(h);
    m.append(dh.as_str());
    m.append(" ");
    let dt = usize_a_texto(total);
    m.append(dt.as_str());
    m.append("\r\n");
    m.append(hs.as_str());
    m.append(payload);
    m.append("\r\n");
    Ok(m)
}

/// Arma el `HPUB` si los largos cifrados caben en un `usize`; si no, `None`.
pub fn hpub_msg_acotado(subject: &str, headers: &str, payload: &str) -> (r: Option<
    Result<String, NatsClientError>,
>)
    ensures
        !largos_acotados(headers@, payload@) ==> r is None,
        largos_acotados(headers@, payload@) ==> (r matches Some(x) && match mensaje_hpub(
            subject@,
            headers@,
            payload@,
        ) {
            Some(m) => x matches Ok(s) && s@ == m,
            None => x matches Err(e) && e@ == ClienteErrorV::InternalError("Error al encriptar"@),
        }),
{
    let mut hs = String::from_str(headers);
    hs.append("\r\n\r\n");
    proof {
        lema_largo_no_negativo(dividir_crlf(hs@, '\r', '\n'));
        lema_largo_no_negativo(dividir_crlf(payload@, '\r', '\n'));
    }
    let cabe = match suma_cifrada(hs.as_str()) {
        Ok(h) => if h > usize::MAX as u128 {
            false
        } else {
            match suma_cifrada(payload) {
                Ok(p) => p <= usize::MAX as u128 - h,
                Err(_) => true,
            }
        },
        Err(_) => true,
    };
    if !cabe {
        return None;
    }
    Some(hpub_msg(subject, headers, payload))
}

/// Los datos de un `MSG` recibido: subject, largo de la carga y respuesta.
pub open spec fn datos_msg(msg: Seq<char>) -> Option<(Seq<char>, Seq<char>, Option<Seq<char>>)> {
    let ps = dividir(msg, ' ').map_values(|p: Seq<char>| recorte(p));
    if ps.len() < 4 {
        None
    } else if ps.len() == 4 {
        Some((ps[1], ps[3], None))
    } else {
        Some((ps[1], ps[4], Some(ps[3])))
    }
}

/// Lee un `MSG subject sid [reply] largo`: el subject, el largo de la carga y la respuesta.
pub fn parse_msg(msg: &str) -> (r: Result<(String, usize, Option<String>), NatsClientError>)
    ensures
        match datos_msg(msg@) {
            Some((s, n, rp)) => match parse_usize_spec(n) {
                Some(k) => r matches Ok((rs, rk, rr)) && rs@ == s && rk == k && match (rr, rp) {
                    (Some(a), Some(b)) => a@ == b,
                    (None, None) => true,
                    _ => false,
                },
                None => r matches Err(e) && e is MalformedMessage,
            },
            None => r matches Err(e) && e is MalformedMessage,
        },
{
    let partes = dividir_exec(msg, ' ');
    let ghost ps = dividir(msg@, ' ').map_values(|p: Seq<char>| recorte(p));
    if partes.len() < 4 {
        return Err(NatsClientError::MalformedMessage);
    }
    assert(ps[1] == recorte(partes@[1]@));
    assert(ps[3] == recorte(partes@[3]@));
    let subject = recortar(partes[1].as_str());
    let (texto, reply) = if partes.len() == 4 {
        (recortar(partes[3].as_str()), None)
    } else {
        assert(ps[4] == recorte(partes@[4]@));
        (recortar(partes[4].as_str()), Some(recortar(partes[3].as_str())))
    };
    match parse_usize(texto.as_str()) {
        Some(k) => Ok((subject, k, reply)),
        None => Err(NatsClientError::MalformedMessage),
    }
}

/// Lo que el cliente recibe del servidor, según la primera palabra.
#[derive(Debug)]
pub enum OperacionEntrante {
    Ping,
    Confirmacion,
    Msg,
    Hmsg,
    Error,
    Otra,
}

/// La primera palabra (recortada) de un mensaje recibido.
pub open spec fn operacion_de(m: Seq<char>) -> Seq<char> {
    recorte(dividir(m, ' ')[0])
}

/// Clasifica un mensaje recibido del servidor por su primera palabra.
pub fn clasificar_entrante(m: &str) -> (r: OperacionEntrante)
    ensures
        operacion_de(m@) == "PING"@ ==> r is Ping,
        operacion_de(m@) == "+OK"@ ==> r is Confirmacion,
        operacion_de(m@) == "MSG"@ ==> r is Msg,
        operacion_de(m@) == "HMSG"@ ==> r is Hmsg,
        operacion_de(m@) == "-ERR"@ ==> r is Error,
        (operacion_de(m@) != "PING"@ && operacion_de(m@) != "+OK"@ && operacion_de(m@) != "MSG"@
            && operacion_de(m@) != "HMSG"@ && operacion_de(m@) != "-ERR"@) ==> r is Otra,
{
    let ps = dividir_exec(m, ' ');
    assert(vistas(ps@)[0] == ps@[0]@);
    let op = recortar(ps[0].as_str());
    let o = op.as_str();
    proof {
        reveal_strlit("PING");
        reveal_strlit("+OK");
        reveal_strlit("MSG");
        reveal_strlit("HMSG");
        reveal_strlit("-ERR");
        assert("PING"@[0] == 'P' && "+OK"@[0] == '+' && "MSG"@[0] == 'M' && "HMSG"@[0] == 'H'
            && "-ERR"@[0] == '-');
    }
    if textos_iguales(o, "PING") {
        OperacionEntrante::Ping
    } else if textos_iguales(o, "+OK") {
        OperacionEntrante::Confirmacion
    } else if textos_iguales(o, "MSG") {
        OperacionEntrante::Msg
    } else if textos_iguales(o, "HMSG") {
        OperacionEntrante::Hmsg
    } else if textos_iguales(o, "-ERR") {
        OperacionEntrante::Error
    } else {
        OperacionEntrante::Otra
    }
}

/// Vista de una suscripción del cliente: id, subject, mensajes que le quedan
/// y, si la alimenta un consumidor, su stream y su nombre.
pub struct SuscripcionClienteV {
    pub id: usize,
    pub subject: Seq<char>,
    pub max_msgs: Option<usize>,
    pub consumidor: Option<(Seq<char>, Seq<char>)>,
}

/// Vista de una suscripción del cliente.
pub open spec fn vista_sub(s: SuscriptionHandler) -> SuscripcionClienteV {
    SuscripcionClienteV {
        id: s.id,
        subject: s.subject@,
        max_msgs: s.max_msgs,
        consumidor: match s.consumer {
            Some(c) => Some((c.stream(), c.nombre())),
            None => None,
        },
    }
}

/// Vista de la lista de suscripciones del cliente.
pub open spec fn vista_subs(v: Seq<SuscriptionHandler>) -> Seq<SuscripcionClienteV> {
    v.map_values(|s: SuscriptionHandler| vista_sub(s))
}

/// La primera suscripción cuyo subject coincide.
pub open spec fn primera_coincidente(subs: Seq<SuscripcionClienteV>, subject: Seq<char>) -> Option<int> {
    if exists|i: int| 0 <= i < subs.len() && coincide_subject(subs[i].subject, subject) {
        Some(
            choose|i: int|
                0 <= i < subs.len() && coincide_subject(subs[i].subject, subject) && forall|j: int|
                    0 <= j < i ==> !coincide_subject(subs[j].subject, subject),
        )
    } else {
        None
    }
}

/// Lo que recibe una suscripción: su id, la carga y los encabezados
/// (recortados), la respuesta, la confirmación para su consumidor (si la
/// alimenta uno) y si con este mensaje termina.
#[derive(Debug)]
pub struct Entrega {
    pub id: usize,
    pub payload: String,
    pub headers: Option<String>,
    pub reply: Option<String>,
    pub ack: Option<String>,
    pub terminar: bool,
}

/// La carga que recibe la suscripción: sin el id del mensaje si la alimenta un consumidor.
pub open spec fn carga_para(s: SuscripcionClienteV, payload: Seq<char>) -> Seq<char> {
    match s.consumidor {
        Some(_) => sin_prefijos(payload, dividir(payload, '.')[0] + "."@),
        None => payload,
    }
}

/// Las suscripciones tras entregar a la de la posición `i`: sale de su lugar
/// y, salvo que fuera su último mensaje, vuelve al final con uno menos por recibir.
pub open spec fn tras_entrega(subs: Seq<SuscripcionClienteV>, i: int) -> Seq<SuscripcionClienteV> {
    let s = subs[i];
    match s.max_msgs {
        Some(m) => if m == 1 {
            subs.remove(i)
        } else {
            subs.remove(i).push(SuscripcionClienteV { max_msgs: Some((m - 1) as usize), ..s })
        },
        None => subs.remove(i).push(s),
    }
}

/// La carga para una suscripción y, si la alimenta un consumidor, la
/// confirmación del mensaje: el id es lo anterior al primer punto de la carga.
fn carga_y_ack(consumer: &Option<Consumer>, payload: &str) -> (r: (String, Option<String>))
    ensures
        r.0@ == carga_para(
            SuscripcionClienteV {
                id: 0,
                subject: Seq::empty(),
                max_msgs: None,
                consumidor: match consumer {
                    Some(c) => Some((c.stream(), c.nombre())),
                    None => None,
                },
            },
            payload@,
        ),
        match (r.1, consumer) {
            (Some(a), Some(c)) => a@ == comando_ack(c.stream(), c.nombre(), dividir(payload@, '.')[0]),
            (None, None) => true,
            _ => false,
        },
{
    match consumer {
        Some(c) => {
            let partes = dividir_exec(payload, '.');
            assert(vistas(partes@)[0] == partes@[0]@);
            let mut prefijo = partes[0].clone();
            prefijo.append(".");
            proof {
                reveal_strlit(".");
            }
            let resto = quitar_prefijos(payload, prefijo.as_str());
            (resto, Some(c.to_command(partes[0].as_str())))
        },
        None => (String::from_str(payload), None),
    }
}

/// Entrega un mensaje recibido a la primera suscripción cuyo subject coincide.
#[verifier::rlimit(40)]
pub fn handle_subscription_update(
    subs: &mut Vec<SuscriptionHandler>,
    subject: &str,
    reply_subject: Option<String>,
    payload: &str,
    hmsg: Option<&str>,
) -> (r: Option<Entrega>)
    requires
        primera_coincidente(vista_subs(old(subs)@), subject@) matches Some(i) ==> vista_subs(
            old(subs)@,
        )[i].max_msgs != Some(0usize),
    ensures
        match primera_coincidente(vista_subs(old(subs)@), subject@) {
            None => r is None && vista_subs(final(subs)@) == vista_subs(old(subs)@),
            Some(i) => {
                let s = vista_subs(old(subs)@)[i];
                &&& vista_subs(final(subs)@) == tras_entrega(vista_subs(old(subs)@), i)
                &&& r matches Some(e)
                &&& e.id == s.id
                &&& e.payload@ == recorte(carga_para(s, payload@))
                &&& match (e.headers, hmsg) {
                    (Some(a), Some(b)) => a@ == recorte(b@),
                    (None, None) => true,
                    _ => false,
                }
                &&& vista_opcional_cliente(e.reply) == vista_opcional_cliente(reply_subject)
                &&& match (e.ack, s.consumidor) {
                    (Some(a), Some((st, nm))) => a@ == comando_ack(st, nm, dividir(payload@, '.')[0]),
                    (None, None) => true,
                    _ => false,
                }
                &&& e.terminar == (s.max_msgs == Some(1usize))
            },
        },
{
    let ghost vs = vista_subs(subs@);
    let mut k: usize = 0;
    while k < subs.len() && !subs[k].matches(subject)
        invariant
            vs == vista_subs(subs@),
            subs@ == old(subs)@,
            k <= subs@.len(),
            forall|j: int| 0 <= j < k ==> !coincide_subject((#[trigger] vs[j]).subject, subject@),
        decreases subs@.len() - k,
    {
        assert(vs[k as int].subject == subs@[k as int].subject@);
        k = k + 1;
    }
    if k == subs.len() {
        return None;
    }
    assert(vs[k as int].subject == subs@[k as int].subject@);
    let ghost p = primera_coincidente(vs, subject@);
    assert(p is Some);
    assert(p->0 == k) by {
        let q = p->0;
        if q < k {
            assert(!coincide_subject(vs[q].subject, subject@));
        } else if q > k {
            assert(!coincide_subject(vs[k as int].subject, subject@));
        }
    }
    let ghost antes = subs@;
    let mut sub = subs.remove(k);
    assert(vista_subs(subs@) =~= vs.remove(k as int));
    assert(vista_sub(sub) == vs[k as int]);
    let (carga, ack) = carga_y_ack(&sub.consumer, payload);
    let headers = match hmsg {
        Some(h) => Some(recortar(h)),
        None => None,
    };
    let e = Entrega {
        id: sub.id,
        payload: recortar(carga.as_str()),
        headers,
        reply: reply_subject,
        ack,
        terminar: false,
    };
    let mut e = e;
    match sub.max_msgs {
        Some(m) => {
            if m - 1 == 0 {
                e.terminar = true;
                return Some(e);
            }
            sub.max_msgs = Some(m - 1);
        },
        None => {},
    }
    let ghost v0 = subs@;
    subs.push(sub);
    assert(vista_subs(subs@) =~= vista_subs(v0).push(vista_sub(subs@[v0.len() as int])));
    Some(e)
}

/// Vista de un texto opcional.
pub open spec fn vista_opcional_cliente(o: Option<String>) -> Option<Seq<char>> {
    match o {
        Some(s) => Some(s@),
        None => None,
    }
}

/// Lee líneas terminadas en `\r\n` byte a byte: junta los bytes y, al
/// llegar un `\n` tras un `\r`, da la línea sin ese `\r\n`.
#[derive(Debug)]
pub struct LectorLineas {
    buffer: Vec<u8>,
    ultimo: u8,
}

impl LectorLineas {
    /// El último byte leído, si no es 0, es el último de la línea en curso.
    pub closed spec fn bien_formado(&self) -> bool {
        self.ultimo != 0 ==> (self.buffer@.len() > 0 && self.buffer@.last() == self.ultimo)
    }

    /// Un lector sin bytes pendientes.
    pub fn new() -> (r: LectorLineas)
        ensures
            r.pendientes() == Seq::<u8>::empty(),
            r.anterior() == 0,
            r.bien_formado(),
    {
        LectorLineas { buffer: Vec::new(), ultimo: 0 }
    }

    /// Los bytes de la línea en curso.
    pub closed spec fn pendientes(&self) -> Seq<u8> {
        self.buffer@
    }

    /// El último byte leído de la línea en curso (0 al empezar una línea).
    pub closed spec fn anterior(&self) -> u8 {
        self.ultimo
    }

    /// Agrega un byte leído: si completa un `\r\n`, da la línea y empieza otra.
    pub fn agregar(&mut self, b: u8) -> (r: Option<Vec<u8>>)
        requires
            old(self).bien_formado(),
        ensures
            final(self).bien_formado(),
            (old(self).anterior() == 13u8 && b == 10u8) ==> {
                &&& r matches Some(l)
                &&& l@ == old(self).pendientes().drop_last()
                &&& final(self).pendientes() == Seq::<u8>::empty()
                &&& final(self).anterior() == 0
            },
            !(old(self).anterior() == 13u8 && b == 10u8) ==> {
                &&& r is None
                &&& final(self).pendientes() == old(self).pendientes().push(b)
                &&& final(self).anterior() == b
            },
    {
        if self.ultimo == 13u8 && b == 10u8 {
            let mut linea = Vec::new();
            std::mem::swap(&mut linea, &mut self.buffer);
            linea.pop();
            self.ultimo = 0;
            Some(linea)
        } else {
            self.buffer.push(b);
            self.ultimo = b;
            None
        }
    }
}

/// Quita del cliente la suscripción con ese id o, si se da un máximo de
/// mensajes, se lo fija; da si la quitó. Sin suscripción con ese id es un error.
pub fn quitar_suscripcion(subs: &mut Vec<SuscriptionHandler>, subject_id: usize, max_msgs: Option<usize>) -> (r:
    Result<bool, NatsClientError>)
    ensures
        match posicion_id(vista_subs(old(subs)@), subject_id) {
            None => r matches Err(e) && e is SubscriptionNotFound && vista_subs(final(subs)@)
                == vista_subs(old(subs)@),
            Some(i) => match max_msgs {
                Some(m) => r == Ok::<bool, NatsClientError>(false) && vista_subs(final(subs)@)
                    == vista_subs(old(subs)@).update(
                    i,
                    SuscripcionClienteV { max_msgs: Some(m), ..vista_subs(old(subs)@)[i] },
                ),
                None => r == Ok::<bool, NatsClientError>(true) && vista_subs(final(subs)@)
                    == vista_subs(old(subs)@).remove(i),
            },
        },
{
    let ghost vs = vista_subs(subs@);
    let mut k: usize = 0;
    while k < subs.len() && subs[k].id != subject_id
        invariant
            vs == vista_subs(subs@),
            subs@ == old(subs)@,
            k <= subs@.len(),
            forall|j: int| 0 <= j < k ==> (#[trigger] vs[j]).id != subject_id,
        decreases subs@.len() - k,
    {
        assert(vs[k as int].id == subs@[k as int].id);
        k = k + 1;
    }
    if k == subs.len() {
        return Err(NatsClientError::SubscriptionNotFound);
    }
    assert(vs[k as int].id == subs@[k as int].id);
    let ghost p = posicion_id(vs, subject_id);
    assert(p is Some);
    assert(p->0 == k) by {
        let q = p->0;
        if q < k {
            assert(vs[q].id != subject_id);
        } else if q > k {
            assert(vs[k as int].id != subject_id);
        }
    }
    let ghost antes = subs@;
    let mut sub = subs.remove(k);
    match max_msgs {
        Some(m) => {
            sub.max_msgs = Some(m);
            subs.insert(k, sub);
            assert(vista_subs(subs@) =~= vs.update(
                k as int,
                SuscripcionClienteV { max_msgs: Some(m), ..vs[k as int] },
            ));
            Ok(false)
        },
        None => {
            assert(vista_subs(subs@) =~= vs.remove(k as int));
            Ok(true)
        },
    }
}

/// La primera suscripción con ese id.
pub open spec fn posicion_id(subs: Seq<SuscripcionClienteV>, id: usize) -> Option<int> {
    if exists|i: int| 0 <= i < subs.len() && subs[i].id == id {
        Some(choose|i: int| 0 <= i < subs.len() && subs[i].id == id && forall|j: int| 0 <= j < i ==> subs[j].id != id)
    } else {
        None
    }
}

/// Los datos de la línea de un `HMSG` recibido: subject, bytes de
/// encabezado y de carga, y respuesta.
pub open spec fn datos_hmsg(msg: Seq<char>) -> Option<Result<(Seq<char>, usize, usize, Option<Seq<char>>), ()>> {
    let ps = dividir(msg, ' ').map_values(|p: Seq<char>| recorte(p));
    if ps.len() < 2 {
        None
    } else {
        let (it, ih) = if ps.len() == 6 {
            (5int, 4int)
        } else {
            (4int, 3int)
        };
        if it < ps.len() && ih < ps.len() {
            match (parse_usize_spec(ps[it]), parse_usize_spec(ps[ih])) {
                (Some(t), Some(h)) => Some(
                    Ok((ps[1], h, (t - h) as usize, if ps.len() == 6 { Some(ps[3]) } else { None })),
                ),
                _ => Some(Err(())),
            }
        } else {
            Some(Ok((ps[1], 0, 0, None)))
        }
    }
}

/// Los tamaños de un `HMSG` no hacen fallar al cliente: si ambos se leen,
/// el total no es menor que el encabezado.
pub open spec fn hmsg_seguro(msg: Seq<char>) -> bool {
    let ps = dividir(msg, ' ').map_values(|p: Seq<char>| recorte(p));
    let (it, ih) = if ps.len() == 6 {
        (5int, 4int)
    } else {
        (4int, 3int)
    };
    (ps.len() >= 2 && it < ps.len() && ih < ps.len()) ==> match (
        parse_usize_spec(ps[it]),
        parse_usize_spec(ps[ih]),
    ) {
        (Some(t), Some(h)) => t >= h,
        _ => true,
    }
}

/// Indica si los tamaños de un `HMSG`, cuando se pueden leer, no tienen
/// menos bytes totales que de encabezado.
pub fn hmsg_es_seguro(msg: &str) -> (r: bool)
    ensures
        r == hmsg_seguro(msg@),
{
    let partes = dividir_exec(msg, ' ');
    let ghost ps = dividir(msg@, ' ').map_values(|p: Seq<char>| recorte(p));
    let n = partes.len();
    let (it, ih): (usize, usize) = if n == 6 {
        (5, 4)
    } else {
        (4, 3)
    };
    if n < 2 || it >= n || ih >= n {
        return true;
    }
    assert(ps[it as int] == recorte(partes@[it as int]@));
    assert(ps[ih as int] == recorte(partes@[ih as int]@));
    let ts = recortar(partes[it].as_str());
    let hs = recortar(partes[ih].as_str());
    match (parse_usize(ts.as_str()), parse_usize(hs.as_str())) {
        (Some(t), Some(h)) => t >= h,
        _ => true,
    }
}

/// Lee la línea de un `HMSG subject sid [reply] h t`: el subject, los bytes
/// de encabezado y de carga y la respuesta; sin subject o con un tamaño ilegible es un error.
pub fn parse_hmsg(msg: &str) -> (r: Result<(String, usize, usize, Option<String>), NatsClientError>)
    requires
        hmsg_seguro(msg@),
    ensures
        match datos_hmsg(msg@) {
            None => r matches Err(e) && e@ == ClienteErrorV::InternalError("Error al tomar el subject"@),
            Some(Err(())) => r matches Err(e) && e@ == ClienteErrorV::InternalError(
                "Error al parsear string"@,
            ),
            Some(Ok((s, h, p, rp))) => r matches Ok((rs, rh, rpl, rr)) && rs@ == s && rh == h && rpl
                == p && vista_opcional_cliente(rr) == rp,
        },
{
    let partes = dividir_exec(msg, ' ');
    let ghost ps = dividir(msg@, ' ').map_values(|p: Seq<char>| recorte(p));
    let n = partes.len();
    if n < 2 {
        return Err(NatsClientError::InternalError(String::from_str("Error al tomar el subject")));
    }
    assert(ps[1] == recorte(partes@[1]@));
    let subject = recortar(partes[1].as_str());
    let (it, ih): (usize, usize) = if n == 6 {
        (5, 4)
    } else {
        (4, 3)
    };
    if it < n && ih < n {
        assert(ps[it as int] == recorte(partes@[it as int]@));
        assert(ps[ih as int] == recorte(partes@[ih as int]@));
        let ts = recortar(partes[it].as_str());
        let hs = recortar(partes[ih].as_str());
        let t = match parse_usize(ts.as_str()) {
            Some(t) => t,
            None => {
                return Err(NatsClientError::InternalError(String::from_str("Error al parsear string")));
            },
        };
        let h = match parse_usize(hs.as_str()) {
            Some(h) => h,
            None => {
                return Err(NatsClientError::InternalError(String::from_str("Error al parsear string")));
            },
        };
        let reply = if n == 6 {
            assert(ps[3] == recorte(partes@[3]@));
            Some(recortar(partes[3].as_str()))
        } else {
            None
        };
        Ok((subject, h, t - h, reply))
    } else {
        Ok((subject, 0, 0, None))
    }
}

} // verus!
