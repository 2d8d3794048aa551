//! Registro de eventos: tipos de entrada y formato de cada línea del archivo de log.
use vstd::prelude::*;
use vstd::string::*;

verus! {

/// Tipo de una entrada de log.
#[derive(Debug, Clone, Copy, PartialEq, Eq, Structural)]
pub enum LogType {
    Error,
    Warn,
    Info,
    Debug,
}

/// Registrador que escribe en un archivo.
#[derive(Debug)]
pub struct Logger {
    pub log_file: String,
}

/// La etiqueta de cada tipo de entrada.
pub open spec fn etiqueta(t: LogType) -> Seq<char> {
    match t {
        LogType::Error => "[ERROR]"@,
        LogType::Warn => "[WARN]"@,
        LogType::Info => "[INFO]"@,
        LogType::Debug => "[DEBUG]"@,
    }
}

/// Una línea de log: marca de tiempo, etiqueta del tipo y mensaje, terminada en salto de línea.
pub open spec fn linea_log(marca: Seq<char>, t: LogType, mensaje: Seq<char>) -> Seq<char> {
    marca + " "@ + etiqueta(t) + " "@ + mensaje + "\n"@
}

/// La hora local, con el formato `[%Y-%m-%d %H:%M:%S]`, según `chrono::Local::now`.
/// Depende del reloj y de la zona horaria: no se afirma nada de su valor.
#[verifier::external_body]
fn marca_de_tiempo() -> String {
    chrono::Local::now().format("[%Y-%m-%d %H:%M:%S]").to_string()
}

impl Logger {
    /// Crea un registrador que escribe en `log_file`.
    pub fn new(log_file: &str) -> (r: Self)
        ensures
            r.log_file@ == log_file@,
    {
        Logger { log_file: String::from_str(log_file) }
    }

    /// La línea que se agrega al archivo para una entrada de tipo `t` con la marca de tiempo `marca`.
    pub fn linea(&self, t: LogType, mensaje: &str, marca: &str) -> (r: String)
        ensures
            r@ == linea_log(marca@, t, mensaje@),
    {
        let mut s = String::from_str(marca);
        s.append(" ");
        match t {
            LogType::Error => s.append("[ERROR]"),
            LogType::Warn => s.append("[WARN]"),
            LogType::Info => s.append("[INFO]"),
            LogType::Debug => s.append("[DEBUG]"),
        }
        s.append(" ");
        s.append(mensaje);
        s.append("\n");
        s
    }

    /// La línea que se agrega al archivo ahora, con la hora local como marca de tiempo.
    pub fn entrada(&self, t: LogType, mensaje: &str) -> (r: String)
        ensures
            exists|marca: Seq<char>| r@ == linea_log(marca, t, mensaje@),
    {
        let marca = marca_de_tiempo();
        self.linea(t, mensaje, marca.as_str())
    }
}

} // verus!
