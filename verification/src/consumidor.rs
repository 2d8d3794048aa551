//! La lógica del hilo de cada consumidor de JetStream: recibe los mensajes del
//! stream, los publica en su subject de entrega y los reenvía hasta que se
//! confirman o se agotan los reintentos.
use vstd::prelude::*;
use vstd::string::*;
use vstd::utf8::encode_utf8;
use crate::texto::{decimal, usize_a_texto, largo_en_bytes};
use crate::cripto::{cifrado, encrypt};

verus! {

/// Cuántos envíos hace un consumidor como máximo antes de dar un mensaje por entregado.
pub const MAX_ENVIOS: usize = 5;

/// El estado del hilo de un consumidor: el último mensaje confirmado, el
/// subject de entrega, cuántos envíos hizo y el mensaje que espera confirmar.
#[derive(Debug)]
pub struct ConcurrentConsumer {
    last_acknoledged: usize,
    subject: String,
    contador: usize,
    pendiente: Option<(String, usize)>,
}

/// Vista del estado de un consumidor.
pub struct ConcurrenteV {
    pub last_acknoledged: usize,
    pub subject: Seq<char>,
    pub contador: usize,
    pub pendiente: Option<(Seq<char>, usize)>,
}

impl View for ConcurrentConsumer {
    type V = ConcurrenteV;

    closed spec fn view(&self) -> ConcurrenteV {
        ConcurrenteV {
            last_acknoledged: self.last_acknoledged,
            subject: self.subject@,
            contador: self.contador,
            pendiente: match self.pendiente {
                Some((m, id)) => Some((m@, id)),
                None => None,
            },
        }
    }
}

/// El mensaje con su id adelante: `id.mensaje`.
pub open spec fn con_id(msg: Seq<char>, id: usize) -> Seq<char> {
    decimal(id as nat) + "."@ + msg
}

/// La publicación de un mensaje en el subject de entrega, que se pasa al
/// ejecutor: `PUB subject largo\r\nid.mensaje\r\n`, con el largo del mensaje
/// cifrado; ninguna si no se pudo cifrar.
pub open spec fn publicacion(subject: Seq<char>, msg: Seq<char>, id: usize) -> Option<Seq<char>> {
    let t = con_id(msg, id);
    match cifrado(encode_utf8(t)) {
        Some(enc) => Some("PUB "@ + subject + " "@ + decimal(enc.len()) + "\r\n"@ + t + "\r\n"@),
        None => None,
    }
}

/// El mensaje que espera confirmación (vacío si no hay).
pub open spec fn mensaje_pendiente(c: ConcurrenteV) -> Seq<char> {
    match c.pendiente {
        Some((m, _)) => m,
        None => Seq::empty(),
    }
}

/// El id del mensaje que espera confirmación (0 si no hay).
pub open spec fn id_pendiente(c: ConcurrenteV) -> usize {
    match c.pendiente {
        Some((_, id)) => id,
        None => 0,
    }
}

impl ConcurrentConsumer {
    /// Un consumidor que entrega en `subject`, con `last_acknoledged` como último confirmado.
    pub fn new(last_acknoledged: usize, subject: &str) -> (r: ConcurrentConsumer)
        ensures
            r@ == (ConcurrenteV {
                last_acknoledged,
                subject: subject@,
                contador: 0,
                pendiente: None,
            }),
    {
        ConcurrentConsumer {
            last_acknoledged,
            subject: String::from_str(subject),
            contador: 0,
            pendiente: None,
        }
    }

    /// Si espera la confirmación de un mensaje.
    pub fn esperando(&self) -> (r: bool)
        ensures
            r == self@.pendiente is Some,
    {
        self.pendiente.is_some()
    }

    /// Cuántos envíos hizo el consumidor.
    pub fn envios(&self) -> (r: usize)
        ensures
            r == self@.contador,
    {
        self.contador
    }

    /// Envía el mensaje pendiente: cuenta el envío y da la publicación.
    fn send_msg(&mut self, msg: &str, id: usize) -> (r: Option<String>)
        requires
            old(self)@.contador < usize::MAX,
        ensures
            final(self)@ == (ConcurrenteV { contador: (old(self)@.contador + 1) as usize, ..old(self)@ }),
            match (r, publicacion(old(self)@.subject, msg@, id)) {
                (Some(s), Some(t)) => s@ == t,
                (None, None) => true,
                _ => false,
            },
    {
        let mut t = usize_a_texto(id);
        t.append(".");
        t.append(msg);
        let _n = largo_en_bytes(t.as_str());
        let r = match encrypt(t.as_str().as_bytes()) {
            Ok(enc) => {
                let mut op = String::from_str("PUB ");
                op.append(self.subject.as_str());
                op.append(" ");
                let largo = usize_a_texto(enc.len());
                op.append(largo.as_str());
                op.append("\r\n");
                op.append(t.as_str());
                op.append("\r\n");
                Some(op)
            },
            Err(_) => None,
        };
        self.contador = self.contador + 1;
        r
    }

    /// Recibe un mensaje del stream: si ya se confirmó uno posterior, lo
    /// descarta; si no, lo envía y queda esperando su confirmación.
    pub fn process_message(&mut self, msg: &str, id: usize) -> (r: Option<String>)
        requires
            old(self)@.pendiente is None,
            old(self)@.contador < usize::MAX,
        ensures
            old(self)@.last_acknoledged > id ==> (final(self)@ == old(self)@ && r is None),
            old(self)@.last_acknoledged <= id ==> {
                &&& final(self)@ == (ConcurrenteV {
                    contador: (old(self)@.contador + 1) as usize,
                    pendiente: Some((msg@, id)),
                    ..old(self)@
                })
                &&& match (r, publicacion(old(self)@.subject, msg@, id)) {
                    (Some(s), Some(t)) => s@ == t,
                    (None, None) => true,
                    _ => false,
                }
            },
    {
        if self.last_acknoledged > id {
            return None;
        }
        let r = self.send_msg(msg, id);
        self.pendiente = Some((String::from_str(msg), id));
        r
    }

    /// Se venció la espera de la confirmación: tras el quinto envío da el
    /// mensaje por entregado; si no, lo vuelve a enviar.
    pub fn process_messages_with_timeout(&mut self) -> (r: Option<String>)
        requires
            old(self)@.pendiente is Some,
            old(self)@.contador < usize::MAX,
        ensures
            ({
                let msg = mensaje_pendiente(old(self)@);
                let id = id_pendiente(old(self)@);
                if old(self)@.contador >= MAX_ENVIOS {
                    &&& final(self)@ == (ConcurrenteV {
                        last_acknoledged: id,
                        pendiente: None,
                        ..old(self)@
                    })
                    &&& r is None
                } else {
                    &&& final(self)@ == (ConcurrenteV {
                        contador: (old(self)@.contador + 1) as usize,
                        ..old(self)@
                    })
                    &&& match (r, publicacion(old(self)@.subject, msg, id)) {
                        (Some(s), Some(t)) => s@ == t,
                        (None, None) => true,
                        _ => false,
                    }
                }
            }),
    {
        let (msg, id) = match self.pendiente.take() {
            Some(p) => p,
            None => {
                return None;
            },
        };
        if self.contador >= MAX_ENVIOS {
            self.last_acknoledged = id;
            return None;
        }
        let r = self.send_msg(msg.as_str(), id);
        self.pendiente = Some((msg, id));
        r
    }

    /// Llegó la confirmación del mensaje pendiente: pasa a ser el último confirmado.
    pub fn ack_recibido(&mut self)
        requires
            old(self)@.pendiente is Some,
        ensures
            final(self)@ == (ConcurrenteV {
                last_acknoledged: id_pendiente(old(self)@),
                pendiente: None,
                ..old(self)@
            }),
    {
        match self.pendiente.take() {
            Some((_, id)) => {
                self.last_acknoledged = id;
            },
            None => {},
        }
    }
}

} // verus!
