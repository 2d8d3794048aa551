//! Errores del servidor y los textos con que se informan.
use vstd::prelude::*;
use vstd::string::*;

verus! {

/// Todos los errores que puede tener el servidor.
#[derive(Debug)]
pub enum ErroresServer {
    UnknownProtocolOperation,
    AttemptedToConnectToRoutePort,
    AuthorizationViolation,
    AuthorizationTimeout,
    InvalidClientProtocol,
    MaximumControlLineExceeded,
    ParserError,
    SecureConnectionTLSRequired,
    StaleConnection,
    MaximumConnectionsExceeded,
    SlowConsumer,
    MaximumPayloadViolation,
    InvalidSubject(String),
    SubscriptionPermissionsViolation(String),
    PublishPermissionsViolation(String),
    InternalError(String),
    StreamsAccessError,
    MalformedUnsubError,
    InvalidSID,
    ClientDisconnected(String),
    InvalidJson,
    StreamNotFound,
}

/// Vista de un error: el mismo caso, con los textos como secuencias de caracteres.
pub enum ErrorV {
    UnknownProtocolOperation,
    AttemptedToConnectToRoutePort,
    AuthorizationViolation,
    AuthorizationTimeout,
    InvalidClientProtocol,
    MaximumControlLineExceeded,
    ParserError,
    SecureConnectionTLSRequired,
    StaleConnection,
    MaximumConnectionsExceeded,
    SlowConsumer,
    MaximumPayloadViolation,
    InvalidSubject(Seq<char>),
    SubscriptionPermissionsViolation(Seq<char>),
    PublishPermissionsViolation(Seq<char>),
    InternalError(Seq<char>),
    StreamsAccessError,
    MalformedUnsubError,
    InvalidSID,
    ClientDisconnected(Seq<char>),
    InvalidJson,
    StreamNotFound,
}

impl View for ErroresServer {
    type V = ErrorV;

    open spec fn view(&self) -> ErrorV {
        match self {
            ErroresServer::UnknownProtocolOperation => ErrorV::UnknownProtocolOperation,
            ErroresServer::AttemptedToConnectToRoutePort => ErrorV::AttemptedToConnectToRoutePort,
            ErroresServer::AuthorizationViolation => ErrorV::AuthorizationViolation,
            ErroresServer::AuthorizationTimeout => ErrorV::AuthorizationTimeout,
            ErroresServer::InvalidClientProtocol => ErrorV::InvalidClientProtocol,
            ErroresServer::MaximumControlLineExceeded => ErrorV::MaximumControlLineExceeded,
            ErroresServer::ParserError => ErrorV::ParserError,
            ErroresServer::SecureConnectionTLSRequired => ErrorV::SecureConnectionTLSRequired,
            ErroresServer::StaleConnection => ErrorV::StaleConnection,
            ErroresServer::MaximumConnectionsExceeded => ErrorV::MaximumConnectionsExceeded,
            ErroresServer::SlowConsumer => ErrorV::SlowConsumer,
            ErroresServer::MaximumPayloadViolation => ErrorV::MaximumPayloadViolation,
            ErroresServer::InvalidSubject(m) => ErrorV::InvalidSubject(m@),
            ErroresServer::SubscriptionPermissionsViolation(m) => ErrorV::SubscriptionPermissionsViolation(m@),
            ErroresServer::PublishPermissionsViolation(m) => ErrorV::PublishPermissionsViolation(m@),
            ErroresServer::InternalError(m) => ErrorV::InternalError(m@),
            ErroresServer::StreamsAccessError => ErrorV::StreamsAccessError,
            ErroresServer::MalformedUnsubError => ErrorV::MalformedUnsubError,
            ErroresServer::InvalidSID => ErrorV::InvalidSID,
            ErroresServer::ClientDisconnected(m) => ErrorV::ClientDisconnected(m@),
            ErroresServer::InvalidJson => ErrorV::InvalidJson,
            ErroresServer::StreamNotFound => ErrorV::StreamNotFound,
        }
    }
}

/// Vista de un resultado que puede fallar con un error del servidor.
pub open spec fn vista_resultado(r: Result<(), ErroresServer>) -> Result<(), ErrorV> {
    match r {
        Ok(()) => Ok(()),
        Err(e) => Err(e@),
    }
}

/// El texto con que se muestra cada error (lo que se envía al cliente tras `-ERR `).
pub open spec fn texto_error(e: ErrorV) -> Seq<char> {
    match e {
        ErrorV::UnknownProtocolOperation => "Unknown protocol operation"@,
        ErrorV::AttemptedToConnectToRoutePort => "Attempted to connect to route port"@,
        ErrorV::AuthorizationViolation => "Authorization Violation"@,
        ErrorV::AuthorizationTimeout => "Authorization timeout"@,
        ErrorV::InvalidClientProtocol => "Invalid client protocol"@,
        ErrorV::MaximumControlLineExceeded => "Maximum control line exceeded"@,
        ErrorV::ParserError => "Parser error"@,
        ErrorV::SecureConnectionTLSRequired => "Secure connection TLS required"@,
        ErrorV::StaleConnection => "Stale connection"@,
        ErrorV::MaximumConnectionsExceeded => "Maximum connections exceeded"@,
        ErrorV::SlowConsumer => "Slow consumer"@,
        ErrorV::MaximumPayloadViolation => "Maximum payload violation"@,
        ErrorV::InvalidSubject(m) => "Invalid subject, "@ + m,
        ErrorV::SubscriptionPermissionsViolation(s) => "Permissions Violation for Subscription to "@
            + s,
        ErrorV::PublishPermissionsViolation(s) => "Permissions Violation for Publish to "@ + s,
        ErrorV::InternalError(m) => "Internal error: "@ + m + " "@,
        ErrorV::MalformedUnsubError => "Formato incorrecto de comando de desuscripcion"@,
        ErrorV::InvalidSID => "SID invalido"@,
        ErrorV::ClientDisconnected(m) => "Cliente con id "@ + m + " desconectado"@,
        ErrorV::InvalidJson => "Invlaid Json"@,
        ErrorV::StreamNotFound => "Stream not found"@,
        ErrorV::StreamsAccessError => "Error al acceder a los streams"@,
    }
}

/// El texto con que el error se convierte en un error de entrada/salida.
pub open spec fn texto_error_io(e: ErrorV) -> Seq<char> {
    match e {
        ErrorV::AuthorizationViolation => "Authorization violation"@,
        ErrorV::SubscriptionPermissionsViolation(r) => "Subscription permissions violation: "@ + r,
        ErrorV::PublishPermissionsViolation(r) => "Publish permissions violation: "@ + r,
        ErrorV::InternalError(m) => "Internal error: "@ + m,
        ErrorV::ClientDisconnected(m) => "Cliente de id "@ + m + " desconectado"@,
        ErrorV::InvalidJson => "Invalid Json"@,
        _ => texto_error(e),
    }
}

/// Concatena tres textos.
pub fn unir3(a: &str, b: &str, c: &str) -> (r: String)
    ensures
        r@ == a@ + b@ + c@,
{
    let mut s = String::from_str(a);
    s.append(b);
    s.append(c);
    s
}

/// Concatena dos textos.
pub fn unir2(a: &str, b: &str) -> (r: String)
    ensures
        r@ == a@ + b@,
{
    let mut s = String::from_str(a);
    s.append(b);
    s
}

impl ErroresServer {
    /// El texto con que se muestra el error.
    pub fn to_string(&self) -> (r: String)
        ensures
            r@ == texto_error(self@),
    {
        match self {
            ErroresServer::UnknownProtocolOperation => String::from_str(
                "Unknown protocol operation",
            ),
            ErroresServer::AttemptedToConnectToRoutePort => String::from_str(
                "Attempted to connect to route port",
            ),
            ErroresServer::AuthorizationViolation => String::from_str("Authorization Violation"),
            ErroresServer::AuthorizationTimeout => String::from_str("Authorization timeout"),
            ErroresServer::InvalidClientProtocol => String::from_str("Invalid client protocol"),
            ErroresServer::MaximumControlLineExceeded => String::from_str(
                "Maximum control line exceeded",
            ),
            ErroresServer::ParserError => String::from_str("Parser error"),
            ErroresServer::SecureConnectionTLSRequired => String::from_str(
                "Secure connection TLS required",
            ),
            ErroresServer::StaleConnection => String::from_str("Stale connection"),
            ErroresServer::MaximumConnectionsExceeded => String::from_str(
                "Maximum connections exceeded",
            ),
            ErroresServer::SlowConsumer => String::from_str("Slow consumer"),
            ErroresServer::MaximumPayloadViolation => String::from_str(
                "Maximum payload violation",
            ),
            ErroresServer::InvalidSubject(m) => unir2("Invalid subject, ", m.as_str()),
            ErroresServer::SubscriptionPermissionsViolation(s) => unir2(
                "Permissions Violation for Subscription to ",
                s.as_str(),
            ),
            ErroresServer::PublishPermissionsViolation(s) => unir2(
                "Permissions Violation for Publish to ",
                s.as_str(),
            ),
            ErroresServer::InternalError(m) => unir3("Internal error: ", m.as_str(), " "),
            ErroresServer::MalformedUnsubError => String::from_str(
                "Formato incorrecto de comando de desuscripcion",
            ),
            ErroresServer::InvalidSID => String::from_str("SID invalido"),
            ErroresServer::ClientDisconnected(m) => unir3(
                "Cliente con id ",
                m.as_str(),
                " desconectado",
            ),
            ErroresServer::InvalidJson => String::from_str("Invlaid Json"),
            ErroresServer::StreamNotFound => String::from_str("Stream not found"),
            ErroresServer::StreamsAccessError => String::from_str(
                "Error al acceder a los streams",
            ),
        }
    }

    /// El texto con que el error se convierte en un error de entrada/salida.
    pub fn to_io_string(&self) -> (r: String)
        ensures
            r@ == texto_error_io(self@),
    {
        match self {
            ErroresServer::AuthorizationViolation => String::from_str("Authorization violation"),
            ErroresServer::SubscriptionPermissionsViolation(r) => unir2(
                "Subscription permissions violation: ",
                r.as_str(),
            ),
            ErroresServer::PublishPermissionsViolation(r) => unir2(
                "Publish permissions violation: ",
                r.as_str(),
            ),
            ErroresServer::InternalError(m) => unir2("Internal error: ", m.as_str()),
            ErroresServer::ClientDisconnected(m) => unir3(
                "Cliente de id ",
                m.as_str(),
                " desconectado",
            ),
            ErroresServer::InvalidJson => String::from_str("Invalid Json"),
            _ => self.to_string(),
        }
    }
}

} // verus!
