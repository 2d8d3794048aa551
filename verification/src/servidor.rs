//! Las decisiones del servidor al aceptar conexiones: el mensaje `INFO` que
//! recibe cada cliente, el límite de conexiones y los ids de conexión.
use vstd::prelude::*;
use vstd::string::*;
use crate::texto::{dividir, dividir_exec, vistas};
use crate::errores::{ErroresServer, ErrorV, texto_error};

verus! {

/// Si el servidor exige autenticación a los clientes.
pub const AUTH_REQUIRED: bool = true;

/// Segundos que se espera el `PONG` de un cliente.
pub const WAIT_TIME_PONG: usize = 30;

/// Segundos entre dos `PING` a un cliente.
pub const TIME_BETWEEN_PINGS: usize = 50;

/// El estado del servidor: su dirección, el próximo id de conexión, el
/// máximo de conexiones y cuántas aceptó.
#[derive(Debug)]
pub struct Server {
    address: String,
    connection_id_counter: usize,
    max_connections: usize,
    count_connections: usize,
}

/// Vista del servidor.
pub struct ServidorV {
    pub address: Seq<char>,
    pub connection_id_counter: usize,
    pub max_connections: usize,
    pub count_connections: usize,
}

impl View for Server {
    type V = ServidorV;

    closed spec fn view(&self) -> ServidorV {
        ServidorV {
            address: self.address@,
            connection_id_counter: self.connection_id_counter,
            max_connections: self.max_connections,
            count_connections: self.count_connections,
        }
    }
}

/// El mensaje `INFO` para la dirección: la parte tras el primer `:` es el
/// puerto; `None` si la dirección no tiene `:`.
pub open spec fn mensaje_info(address: Seq<char>) -> Option<Seq<char>> {
    let partes = dividir(address, ':');
    if partes.len() < 2 {
        None
    } else {
        Some(
            "INFO "@ + "{\"server_id\":1,\"server_name\":\"in_code_we_trust\",\"version\":\"2.6.5\"},\"go\":\"go1.16.10\"},\"host\":\"0.0.0.0\",\"port\":\""@
                + partes[1] + "\",\"auth_required\":"@ + "true"@
                + "\",\"headers\":false,\"max_payload\":1048576,\"proto\":\"1.2.0\"}"@ + "\r\n"@,
        )
    }
}

impl Server {
    /// Un servidor en esa dirección, que acepta hasta 15 conexiones, con ids desde 1.
    pub fn new(address: &str) -> (r: Server)
        ensures
            r@ == (ServidorV {
                address: address@,
                connection_id_counter: 1,
                max_connections: 15,
                count_connections: 0,
            }),
    {
        Server {
            address: String::from_str(address),
            connection_id_counter: 1,
            max_connections: 15,
            count_connections: 0,
        }
    }

    /// La dirección del servidor.
    pub fn address(&self) -> (r: &String)
        ensures
            r@ == self@.address,
    {
        &self.address
    }

    /// El mensaje `INFO` que recibe cada cliente nuevo.
    pub fn info(&self) -> (r: Result<String, ErroresServer>)
        ensures
            match mensaje_info(self@.address) {
                Some(m) => r matches Ok(s) && s@ == m,
                None => r matches Err(e) && e@ == ErrorV::InternalError("Puerto Invalido"@),
            },
    {
        let partes = dividir_exec(self.address.as_str(), ':');
        if partes.len() < 2 {
            return Err(ErroresServer::InternalError(String::from_str("Puerto Invalido")));
        }
        assert(vistas(partes@)[1] == partes@[1]@);
        let mut m = String::from_str("INFO ");
        m.append(
            "{\"server_id\":1,\"server_name\":\"in_code_we_trust\",\"version\":\"2.6.5\"},\"go\":\"go1.16.10\"},\"host\":\"0.0.0.0\",\"port\":\"",
        );
        m.append(partes[1].as_str());
        m.append("\",\"auth_required\":");
        m.append("true");
        m.append("\",\"headers\":false,\"max_payload\":1048576,\"proto\":\"1.2.0\"}");
        m.append("\r\n");
        Ok(m)
    }

    /// El mensaje de rechazo cuando se superó el máximo de conexiones.
    pub fn rechazo() -> (r: String)
        ensures
            r@ == "-ERR "@ + texto_error(ErrorV::MaximumConnectionsExceeded) + "\r\n"@,
    {
        let mut m = String::from_str("-ERR ");
        let t = ErroresServer::MaximumConnectionsExceeded.to_string();
        m.append(t.as_str());
        m.append("\r\n");
        m
    }

    /// Si se alcanzó el máximo de conexiones.
    pub fn lleno(&self) -> (r: bool)
        ensures
            r == (self@.count_connections >= self@.max_connections),
    {
        self.count_connections >= self.max_connections
    }

    /// El id de la próxima conexión.
    pub fn proximo_id(&self) -> (r: usize)
        ensures
            r == self@.connection_id_counter,
    {
        self.connection_id_counter
    }

    /// Registra la conexión aceptada: el id siguiente pasa a la próxima y se
    /// cuenta una conexión más (las conexiones cerradas no se descuentan).
    pub fn registrar_conexion(&mut self)
        requires
            old(self)@.connection_id_counter < usize::MAX,
            old(self)@.count_connections < usize::MAX,
        ensures
            final(self)@ == (ServidorV {
                connection_id_counter: (old(self)@.connection_id_counter + 1) as usize,
                count_connections: (old(self)@.count_connections + 1) as usize,
                ..old(self)@
            }),
    {
        self.connection_id_counter = self.connection_id_counter + 1;
        self.count_connections = self.count_connections + 1;
    }
}

} // verus!
