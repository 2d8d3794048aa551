//! La lógica del hilo que mantiene viva la conexión con un cliente: le pide
//! al ejecutor enviar `PING` y, si no llega el `PONG` a tiempo, cierra la conexión.
use vstd::prelude::*;
use vstd::string::*;
use crate::errores::{ErroresServer, ErrorV, texto_error};

verus! {

/// Los tiempos de espera del ping de un cliente.
#[derive(Debug)]
pub struct Ping {
    waiting_time: usize,
    time_between_pings: usize,
    client_id: usize,
}

/// Lo que el hilo de ping hace al comenzar cada ciclo.
#[derive(Debug)]
pub enum Ciclo {
    /// Pasar `SEND_PING` al ejecutor y esperar el `PONG` esos segundos.
    Enviar { mensaje: String, espera: usize },
    /// Terminar: ya se dejó de escuchar al cliente.
    Terminar,
}

impl Ping {
    /// Un ping para el cliente, que espera el `PONG` `waiting_time` segundos y
    /// duerme `time_between_pings` segundos entre pings.
    pub fn new(waiting_time: usize, time_between_pings: usize, client_id: usize) -> (r: Ping)
        ensures
            r.espera() == waiting_time,
            r.pausa() == time_between_pings,
            r.cliente() == client_id,
    {
        Ping { waiting_time, time_between_pings, client_id }
    }

    /// Cuántos segundos se espera el `PONG`.
    pub closed spec fn espera(&self) -> usize {
        self.waiting_time
    }

    /// Cuántos segundos se duerme entre pings.
    pub closed spec fn pausa(&self) -> usize {
        self.time_between_pings
    }

    /// El cliente.
    pub closed spec fn cliente(&self) -> usize {
        self.client_id
    }

    /// El id del cliente.
    pub fn client_id(&self) -> (r: usize)
        ensures
            r == self.cliente(),
    {
        self.client_id
    }

    /// Cuántos segundos dormir tras recibir un `PONG`.
    pub fn tiempo_entre_pings(&self) -> (r: usize)
        ensures
            r == self.pausa(),
    {
        self.time_between_pings
    }

    /// Al comenzar un ciclo: si no se dejó de escuchar, pedir un `PING`.
    pub fn comenzar_ciclo(&self, dejar_de_leer: bool) -> (r: Ciclo)
        ensures
            dejar_de_leer ==> r is Terminar,
            !dejar_de_leer ==> (r matches Ciclo::Enviar { mensaje, espera } && mensaje@
                == "SEND_PING"@ && espera == self.espera()),
    {
        if dejar_de_leer {
            Ciclo::Terminar
        } else {
            Ciclo::Enviar { mensaje: String::from_str("SEND_PING"), espera: self.waiting_time }
        }
    }

    /// No llegó el `PONG` a tiempo (o se cortó la conexión): si nadie marcó el
    /// cierre, los mensajes para el ejecutor son `-ERR Stale connection` y
    /// `SHUTDOWN`, y hay que marcarlo; el hilo termina en cualquier caso.
    pub fn sin_pong(&self, dejar_de_escuchar: bool) -> (r: Vec<String>)
        ensures
            dejar_de_escuchar ==> r@.len() == 0,
            !dejar_de_escuchar ==> (r@.len() == 2 && r@[0]@ == "-ERR "@ + texto_error(
                ErrorV::StaleConnection,
            ) && r@[1]@ == "SHUTDOWN"@),
    {
        let mut r: Vec<String> = Vec::new();
        if !dejar_de_escuchar {
            let mut m = String::from_str("-ERR ");
            let t = ErroresServer::StaleConnection.to_string();
            m.append(t.as_str());
            r.push(m);
            r.push(String::from_str("SHUTDOWN"));
        }
        r
    }
}

} // verus!
