//! Las acciones que la lógica del servidor pide realizar al programa que la
//! rodea: escribir a los clientes, registrar en logs, administrar los hilos de
//! los consumidores y guardar registros en archivos CSV.
use vstd::prelude::*;
use crate::logger::LogType;

verus! {

/// Una acción pedida por la lógica del servidor.
#[derive(Debug)]
pub enum Accion {
    /// Escribir `msg` (cifrado por líneas) al cliente `cliente`.
    Escribir { cliente: usize, msg: String },
    /// Entregar `msg` al suscriptor `cliente`; si la escritura sale bien y hay
    /// un log indicado, registrar `msg` como `Info` en ese log.
    Entregar { cliente: usize, msg: String, log: Option<String> },
    /// Registrar `msg` con tipo `tipo` en el archivo de log `archivo`.
    Log { archivo: String, tipo: LogType, msg: String },
    /// Quitar al cliente de los conectados y enviarle `SHUTDOWN\r\n`.
    Cerrar { cliente: usize },
    /// Pasar al hilo del consumidor `consumidor` del stream `stream` el mensaje `msg` con id `id`.
    EnviarAConsumidor { stream: String, consumidor: String, msg: String, id: usize },
    /// Avisar al hilo del consumidor que se confirmó el mensaje `id`.
    AckConsumidor { stream: String, consumidor: String, id: usize },
    /// Lanzar el hilo de un consumidor que entrega en `delivery_subject`
    /// los mensajes con id desde `last_ack`.
    CrearConsumidor { stream: String, nombre: String, delivery_subject: String, last_ack: usize },
    /// En el archivo CSV `archivo`, reemplazar por `linea` el registro cuya
    /// primera columna es `clave`, o agregarla al final si no hay ninguno.
    GuardarCsv { archivo: String, clave: String, linea: String },
}

/// Vista de una acción.
pub enum AccionV {
    Escribir { cliente: usize, msg: Seq<char> },
    Entregar { cliente: usize, msg: Seq<char>, log: Option<Seq<char>> },
    Log { archivo: Seq<char>, tipo: LogType, msg: Seq<char> },
    Cerrar { cliente: usize },
    EnviarAConsumidor { stream: Seq<char>, consumidor: Seq<char>, msg: Seq<char>, id: usize },
    AckConsumidor { stream: Seq<char>, consumidor: Seq<char>, id: usize },
    CrearConsumidor {
        stream: Seq<char>,
        nombre: Seq<char>,
        delivery_subject: Seq<char>,
        last_ack: usize,
    },
    GuardarCsv { archivo: Seq<char>, clave: Seq<char>, linea: Seq<char> },
}

impl View for Accion {
    type V = AccionV;

    open spec fn view(&self) -> AccionV {
        match self {
            Accion::Escribir { cliente, msg } => AccionV::Escribir { cliente: *cliente, msg: msg@ },
            Accion::Entregar { cliente, msg, log } => AccionV::Entregar {
                cliente: *cliente,
                msg: msg@,
                log: match log {
                    Some(l) => Some(l@),
                    None => None,
                },
            },
            Accion::Log { archivo, tipo, msg } => AccionV::Log {
                archivo: archivo@,
                tipo: *tipo,
                msg: msg@,
            },
            Accion::Cerrar { cliente } => AccionV::Cerrar { cliente: *cliente },
            Accion::EnviarAConsumidor { stream, consumidor, msg, id } => AccionV::EnviarAConsumidor {
                stream: stream@,
                consumidor: consumidor@,
                msg: msg@,
                id: *id,
            },
            Accion::AckConsumidor { stream, consumidor, id } => AccionV::AckConsumidor {
                stream: stream@,
                consumidor: consumidor@,
                id: *id,
            },
            Accion::CrearConsumidor { stream, nombre, delivery_subject, last_ack } =>
                AccionV::CrearConsumidor {
                stream: stream@,
                nombre: nombre@,
                delivery_subject: delivery_subject@,
                last_ack: *last_ack,
            },
            Accion::GuardarCsv { archivo, clave, linea } => AccionV::GuardarCsv {
                archivo: archivo@,
                clave: clave@,
                linea: linea@,
            },
        }
    }
}

/// Vista de una lista de acciones.
pub open spec fn vistas_acciones(v: Seq<Accion>) -> Seq<AccionV> {
    v.map_values(|a: Accion| a@)
}

/// Agrega una acción al final de la lista.
pub fn agregar(acciones: &mut Vec<Accion>, a: Accion)
    ensures
        vistas_acciones(final(acciones)@) == vistas_acciones(old(acciones)@).push(a@),
{
    let ghost antes = acciones@;
    acciones.push(a);
    assert(vistas_acciones(acciones@) =~= vistas_acciones(antes).push(a@));
}

} // verus!
