//! Suscripciones de los clientes a subjects.
use vstd::prelude::*;
use crate::subject::{coincide_subject, subject_matches_token};

verus! {

/// Datos de una suscripción: el cliente dueño, el subject (patrón), la
/// cantidad de mensajes que le quedan por recibir (si se fijó) y el id que le
/// dio el cliente.
#[derive(Debug)]
pub struct Suscription {
    pub connection_id: usize,
    pub subject: String,
    pub max_msgs: Option<usize>,
    pub sid: String,
}

/// Vista de una suscripción.
pub struct SuscripcionV {
    pub connection_id: usize,
    pub subject: Seq<char>,
    pub max_msgs: Option<usize>,
    pub sid: Seq<char>,
}

impl View for Suscription {
    type V = SuscripcionV;

    open spec fn view(&self) -> SuscripcionV {
        SuscripcionV {
            connection_id: self.connection_id,
            subject: self.subject@,
            max_msgs: self.max_msgs,
            sid: self.sid@,
        }
    }
}

impl Suscription {
    pub fn new(connection_id: usize, subject: String, max_msgs: Option<usize>, sid: String) -> (r:
        Suscription)
        ensures
            r@ == (SuscripcionV { connection_id, subject: subject@, max_msgs, sid: sid@ }),
    {
        Suscription { connection_id, subject, max_msgs, sid }
    }

    /// Devuelve true si el subject dado coincide con el de la suscripción.
    pub fn matches(&self, subject: &str) -> (r: bool)
        ensures
            r == coincide_subject(self.subject@, subject@),
    {
        subject_matches_token(self.subject.as_str(), subject)
    }

    /// Descuenta un mensaje de los que le quedan, si hay un máximo fijado.
    pub fn decrease_remaining_msgs(&mut self)
        requires
            old(self).max_msgs != Some(0usize),
        ensures
            final(self).connection_id == old(self).connection_id,
            final(self).subject@ == old(self).subject@,
            final(self).sid@ == old(self).sid@,
            final(self).max_msgs == (match old(self).max_msgs {
                Some(m) => Some((m - 1) as usize),
                None => None,
            }),
    {
        if let Some(m) = self.max_msgs {
            self.max_msgs = Some(m - 1);
        }
    }
}

} // verus!
