//! Núcleo verificado de un servidor de mensajería al estilo NATS, de su cliente
//! y de los servicios que lo usan: reglas de subjects, protocolo de comandos,
//! cifrado por líneas, permisos de usuarios, JetStream y consumidores.
pub mod texto;
pub mod errores;
pub mod subject;
pub mod cripto;
pub mod logger;
pub mod usuarios;
pub mod suscripcion;
pub mod json;
pub mod acciones;
pub mod jetstream;
pub mod ejecutor;
pub mod carga;
pub mod consumidor;
pub mod oyente;
pub mod ping;
pub mod servidor;
pub mod cliente;
pub mod monitoreo;
pub mod interfaz;
pub mod incidentes;
pub mod camaras;
