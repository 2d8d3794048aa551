//! La lógica del oyente de cada cliente: descifra cada línea que el cliente
//! envía, junta el `PUB` con su carga y decide qué hacer con cada mensaje
//! (pasarlo al ejecutor, avisar un `PONG`, ignorarlo) o con cada error de lectura.
use vstd::prelude::*;
use vstd::string::*;
use vstd::utf8::{valid_utf8, decode_utf8};
use vstd::slice::slice_subrange;
use crate::texto::{decimal, usize_a_texto, largo_de_bytes, palabras, palabras_exec, empieza, empieza_con, textos_iguales, vistas};
use crate::errores::{ErroresServer, ErrorV, texto_error};
use crate::cripto::{decrypt, descifrado};

verus! {

/// El texto que da `String::from_utf8_lossy` de `bytes`: el que codifican,
/// con cada secuencia inválida reemplazada por `U+FFFD`.
pub uninterp spec fn utf8_con_reemplazos(bytes: Seq<u8>) -> Seq<char>;

/// Convierte bytes en texto con `String::from_utf8_lossy`. Se afirma que el
/// resultado es el nombrado `utf8_con_reemplazos` y, si los bytes son UTF-8
/// válido, el texto que codifican.
#[verifier::external_body]
fn texto_con_reemplazos(bytes: &[u8]) -> (r: String)
    ensures
        r@ == utf8_con_reemplazos(bytes@),
        valid_utf8(bytes@) ==> r@ == decode_utf8(bytes@),
{
    String::from_utf8_lossy(bytes).into_owned()
}

/// Indica si los bytes leídos terminan en `\r\n`.
pub fn termina_en_crlf(buffer: &Vec<u8>) -> (r: bool)
    ensures
        r == (buffer@.len() >= 2 && buffer@[buffer@.len() - 2] == 13u8 && buffer@[buffer@.len() - 1]
            == 10u8),
{
    let n = buffer.len();
    n >= 2 && buffer[n - 2] == 13u8 && buffer[n - 1] == 10u8
}

/// El mensaje de una línea cifrada (sus bytes sin el `\r\n` final), si se puede descifrar.
pub open spec fn mensaje_de_linea(linea: Seq<u8>) -> Option<Seq<u8>> {
    descifrado(linea)
}

/// Descifra una línea (sin su `\r\n`) y la interpreta como texto; un error
/// de descifrado es un `ParserError`.
pub fn descifrar_linea(linea: &[u8]) -> (r: Result<String, ErroresServer>)
    ensures
        descifrado(linea@) is None ==> (r matches Err(e) && e is ParserError),
        descifrado(linea@) matches Some(d) ==> (r is Ok && r->Ok_0@ == utf8_con_reemplazos(d) && (valid_utf8(
            d,
        ) ==> r->Ok_0@ == decode_utf8(d))),
{
    let _n = largo_de_bytes(linea);
    match decrypt(linea) {
        Ok(d) => Ok(texto_con_reemplazos(d.as_slice())),
        Err(_) => Err(ErroresServer::ParserError),
    }
}

/// La posición del primer `\r\n` de `s` que empieza en `k` o después.
pub open spec fn fin_de_linea(s: Seq<u8>, k: int) -> Option<int>
    decreases s.len() - k,
{
    if k < 0 || k + 1 >= s.len() {
        None
    } else if s[k] == 13u8 && s[k + 1] == 10u8 {
        Some(k)
    } else {
        fin_de_linea(s, k + 1)
    }
}

/// El primer `\r\n` desde `k` está en `k` o después, y antes no hay otro.
proof fn lema_fin_de_linea(s: Seq<u8>, k: int)
    requires
        0 <= k,
    ensures
        fin_de_linea(s, k) matches Some(f) ==> k <= f && f + 1 < s.len() && s[f] == 13u8 && s[f + 1] == 10u8,
    decreases s.len() - k,
{
    if k + 1 < s.len() && !(s[k] == 13u8 && s[k + 1] == 10u8) {
        lema_fin_de_linea(s, k + 1);
    }
}

/// Lee los bytes `bytes` desde la posición `desde` hasta el primer `\r\n`:
/// descifra lo leído antes de él y da el texto y la posición que sigue al
/// `\r\n`. Si los bytes se acaban antes, el cliente se desconectó; si lo
/// leído no se puede descifrar, es un `ParserError`.
pub fn escuchar_mensaje(bytes: &[u8], desde: usize, client_id: usize) -> (r: Result<(String, usize), ErroresServer>)
    requires
        desde <= bytes@.len(),
    ensures
        match fin_de_linea(bytes@, desde as int) {
            None => r matches Err(ErroresServer::ClientDisconnected(id)) && id@ == decimal(client_id as nat),
            Some(f) => match descifrado(bytes@.subrange(desde as int, f)) {
                None => r matches Err(e) && e is ParserError,
                Some(d) => r matches Ok((texto, sigue)) && sigue == f + 2 && texto@ == utf8_con_reemplazos(d)
                    && (valid_utf8(d) ==> texto@ == decode_utf8(d)),
            },
        },
{
    let n = largo_de_bytes(bytes);
    let mut i = desde;
    while i + 1 < n
        invariant
            n == bytes@.len(),
            n <= isize::MAX,
            desde <= i <= n,
            fin_de_linea(bytes@, desde as int) == fin_de_linea(bytes@, i as int),
        decreases n - i,
    {
        if bytes[i] == 13u8 && bytes[i + 1] == 10u8 {
            proof {
                lema_fin_de_linea(bytes@, desde as int);
            }
            let linea = slice_subrange(bytes, desde, i);
            let texto = descifrar_linea(linea)?;
            return Ok((texto, i + 2));
        }
        i = i + 1;
    }
    Err(ErroresServer::ClientDisconnected(usize_a_texto(client_id)))
}

/// Lo que el oyente hace con un mensaje o un error.
#[derive(Debug)]
pub enum Salida {
    /// Nada.
    Ninguna,
    /// Avisar al hilo de ping que llegó un `PONG`.
    Pong,
    /// Pasar el mensaje al ejecutor.
    AlEjecutor(String),
    /// Dejar de escuchar; si `avisar`, marcar el cierre y pasar `SHUTDOWN` al ejecutor.
    Cerrar { avisar: bool },
}

/// Vista de lo que hace el oyente.
pub enum SalidaV {
    Ninguna,
    Pong,
    AlEjecutor(Seq<char>),
    Cerrar { avisar: bool },
}

impl View for Salida {
    type V = SalidaV;

    open spec fn view(&self) -> SalidaV {
        match self {
            Salida::Ninguna => SalidaV::Ninguna,
            Salida::Pong => SalidaV::Pong,
            Salida::AlEjecutor(m) => SalidaV::AlEjecutor(m@),
            Salida::Cerrar { avisar } => SalidaV::Cerrar { avisar: *avisar },
        }
    }
}

/// Qué se hace con un mensaje completo: un `PONG` se avisa; un mensaje con
/// alguna palabra que no empieza con `SEND_PING` ni `SHUTDOWN` (de uso
/// interno) va al ejecutor; uno sin palabras se ignora.
pub open spec fn clasificar(m: Seq<char>) -> SalidaV {
    let ws = palabras(m);
    if ws.len() > 0 && ws[0] == "PONG"@ {
        SalidaV::Pong
    } else if ws.len() > 0 && ws[0] != "SEND_PING"@ && ws[0] != "SHUTDOWN"@ {
        SalidaV::AlEjecutor(m)
    } else {
        SalidaV::Ninguna
    }
}

/// Qué se hace con un error de lectura: si ya se dejó de leer, se termina;
/// una desconexión cierra avisando; cualquier otro error se informa al
/// ejecutor como `-ERR texto`.
pub open spec fn tras_error(e: ErrorV, dejar_de_leer: bool) -> SalidaV {
    if dejar_de_leer {
        SalidaV::Cerrar { avisar: false }
    } else {
        match e {
            ErrorV::ClientDisconnected(_) => SalidaV::Cerrar { avisar: true },
            _ => SalidaV::AlEjecutor("-ERR "@ + texto_error(e)),
        }
    }
}

/// Decide qué se hace con un mensaje completo.
pub fn clasificar_mensaje(m: String) -> (r: Salida)
    ensures
        r@ == clasificar(m@),
{
    let ws = palabras_exec(m.as_str());
    if ws.len() > 0 {
        assert(vistas(ws@)[0] == ws@[0]@);
    }
    if ws.len() > 0 && textos_iguales(ws[0].as_str(), "PONG") {
        Salida::Pong
    } else if ws.len() > 0 && !textos_iguales(ws[0].as_str(), "SEND_PING") && !textos_iguales(
        ws[0].as_str(),
        "SHUTDOWN",
    ) {
        Salida::AlEjecutor(m)
    } else {
        Salida::Ninguna
    }
}

/// Decide qué se hace con un error de lectura.
pub fn error_de_lectura(e: &ErroresServer, dejar_de_leer: bool) -> (r: Salida)
    ensures
        r@ == tras_error(e@, dejar_de_leer),
{
    if dejar_de_leer {
        return Salida::Cerrar { avisar: false };
    }
    match e {
        ErroresServer::ClientDisconnected(_) => Salida::Cerrar { avisar: true },
        _ => {
            let mut m = String::from_str("-ERR ");
            let t = e.to_string();
            m.append(t.as_str());
            Salida::AlEjecutor(m)
        },
    }
}

/// El oyente de un cliente: su id de conexión y, si la hay, la línea de un
/// `PUB` que espera su carga.
#[derive(Debug)]
pub struct OyenteCliente {
    connection_id: usize,
    pub_pendiente: Option<String>,
}

/// Vista del oyente.
pub struct OyenteV {
    pub connection_id: usize,
    pub pub_pendiente: Option<Seq<char>>,
}

impl View for OyenteCliente {
    type V = OyenteV;

    closed spec fn view(&self) -> OyenteV {
        OyenteV {
            connection_id: self.connection_id,
            pub_pendiente: match self.pub_pendiente {
                Some(p) => Some(p@),
                None => None,
            },
        }
    }
}

/// Qué hace el oyente con una línea ya descifrada: completa un `PUB`
/// pendiente con su carga (`PUB ...\r\ncarga\r\n`), guarda una línea que
/// empieza con `PUB` hasta tener su carga, o clasifica la línea.
pub open spec fn tras_linea(o: OyenteV, texto: Seq<char>) -> (OyenteV, SalidaV) {
    match o.pub_pendiente {
        Some(p) => (
            OyenteV { pub_pendiente: None, ..o },
            clasificar(p + "\r\n"@ + texto + "\r\n"@),
        ),
        None => if empieza(texto, "PUB"@) {
            (OyenteV { pub_pendiente: Some(texto), ..o }, SalidaV::Ninguna)
        } else {
            (o, clasificar(texto))
        },
    }
}

impl OyenteCliente {
    /// Un oyente para la conexión `connection_id`.
    pub fn new(connection_id: usize) -> (r: OyenteCliente)
        ensures
            r@ == (OyenteV { connection_id, pub_pendiente: None }),
    {
        OyenteCliente { connection_id, pub_pendiente: None }
    }

    /// El id de la conexión.
    pub fn id(&self) -> (r: usize)
        ensures
            r == self@.connection_id,
    {
        self.connection_id
    }

    /// Procesa una línea leída (sus bytes sin el `\r\n`): si no se puede
    /// descifrar es un `ParserError`, que se trata como cualquier error de
    /// lectura y descarta un `PUB` pendiente.
    pub fn linea_leida(&mut self, linea: &[u8], dejar_de_leer: bool) -> (r: Salida)
        ensures
            descifrado(linea@) is None ==> (final(self)@ == (OyenteV {
                pub_pendiente: None,
                ..old(self)@
            }) && r@ == tras_error(ErrorV::ParserError, dejar_de_leer)),
            descifrado(linea@) matches Some(d) ==> (final(self)@, r@) == tras_linea(
                old(self)@,
                utf8_con_reemplazos(d),
            ),
            descifrado(linea@) matches Some(d) ==> (valid_utf8(d) ==> (final(self)@, r@) == tras_linea(
                old(self)@,
                decode_utf8(d),
            )),
    {
        match descifrar_linea(linea) {
            Err(e) => {
                self.pub_pendiente = None;
                error_de_lectura(&e, dejar_de_leer)
            },
            Ok(texto) => self.texto_leido(texto),
        }
    }

    /// Procesa una línea ya descifrada.
    pub fn texto_leido(&mut self, texto: String) -> (r: Salida)
        ensures
            (final(self)@, r@) == tras_linea(old(self)@, texto@),
    {
        match self.pub_pendiente.take() {
            Some(p) => {
                let mut m = p;
                m.append("\r\n");
                m.append(texto.as_str());
                m.append("\r\n");
                clasificar_mensaje(m)
            },
            None => {
                if empieza_con(texto.as_str(), "PUB") {
                    self.pub_pendiente = Some(texto);
                    Salida::Ninguna
                } else {
                    clasificar_mensaje(texto)
                }
            },
        }
    }

    /// Procesa un error de lectura: descarta un `PUB` pendiente.
    pub fn error_leido(&mut self, e: &ErroresServer, dejar_de_leer: bool) -> (r: Salida)
        ensures
            final(self)@ == (OyenteV { pub_pendiente: None, ..old(self)@ }),
            r@ == tras_error(e@, dejar_de_leer),
    {
        self.pub_pendiente = None;
        error_de_lectura(e, dejar_de_leer)
    }
}

} // verus!
