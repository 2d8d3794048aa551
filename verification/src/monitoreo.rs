//! Estados y errores de las cámaras, de su central y del sistema de monitoreo
//! de incidentes, con los textos con que se muestran.
use vstd::prelude::*;
use vstd::string::*;
use crate::texto::{vistas, textos_iguales};

verus! {

/// Los estados posibles de una cámara.
#[derive(Debug, Clone, Copy, PartialEq, Eq, Structural)]
pub enum EstadoCamara {
    AhorroDeEnergia,
    Grabando,
}

impl EstadoCamara {
    /// El texto con que se muestra el estado.
    pub fn to_string(&self) -> (r: String)
        ensures
            r@ == match self {
                EstadoCamara::AhorroDeEnergia => "Ahorro de Energía"@,
                EstadoCamara::Grabando => "Grabando"@,
            },
    {
        match self {
            EstadoCamara::AhorroDeEnergia => String::from_str("Ahorro de Energía"),
            EstadoCamara::Grabando => String::from_str("Grabando"),
        }
    }
}

/// Los errores de la central de cámaras.
#[derive(Debug)]
pub enum ErroresCentral {
    ErrorAlCrearCamara,
    NoSePudoBorrarLaCamara,
    ErrorAlProcesarIncidente,
    InternalError(String),
}

/// El texto con que se muestra un error de la central (el mismo con que se
/// convierte en un error de entrada/salida).
pub open spec fn texto_error_central(e: ErroresCentral) -> Seq<char> {
    match e {
        ErroresCentral::ErrorAlCrearCamara => "Hubo un error al crear la camara"@,
        ErroresCentral::NoSePudoBorrarLaCamara => "El id pasado por parametro no le pertenece a ninguna camara"@,
        ErroresCentral::InternalError(m) => "Error interno: "@ + m@,
        ErroresCentral::ErrorAlProcesarIncidente => "Error al procesar incidente"@,
    }
}

impl ErroresCentral {
    /// El texto con que se muestra el error.
    pub fn to_string(&self) -> (r: String)
        ensures
            r@ == texto_error_central(*self),
    {
        match self {
            ErroresCentral::ErrorAlCrearCamara => String::from_str("Hubo un error al crear la camara"),
            ErroresCentral::NoSePudoBorrarLaCamara => String::from_str(
                "El id pasado por parametro no le pertenece a ninguna camara",
            ),
            ErroresCentral::InternalError(m) => {
                let mut s = String::from_str("Error interno: ");
                s.append(m.as_str());
                s
            },
            ErroresCentral::ErrorAlProcesarIncidente => String::from_str("Error al procesar incidente"),
        }
    }
}

/// El estado de un incidente.
#[derive(Debug, Clone, Copy)]
pub enum Estado {
    Pendiente,
    Cancelado,
    Activo,
}

impl Estado {
    /// El nombre del estado.
    pub fn as_str(&self) -> (r: &'static str)
        ensures
            r@ == match self {
                Estado::Pendiente => "pendiente"@,
                Estado::Cancelado => "cancelado"@,
                Estado::Activo => "activo"@,
            },
    {
        match self {
            Estado::Pendiente => "pendiente",
            Estado::Cancelado => "cancelado",
            Estado::Activo => "activo",
        }
    }
}

/// Los errores del sistema de monitoreo.
#[derive(Debug)]
pub enum SistemaMonitoreoError {
    IdInvalido,
    InternalError,
    AppConfigError,
}

impl SistemaMonitoreoError {
    /// El texto con que se muestra el error.
    pub fn to_string(&self) -> (r: String)
        ensures
            r@ == match self {
                SistemaMonitoreoError::IdInvalido => "El id es invalido"@,
                SistemaMonitoreoError::InternalError => "Error tecnico al realizar una operacion"@,
                SistemaMonitoreoError::AppConfigError => "Error en la configuracion de la aplicacion"@,
            },
    {
        match self {
            SistemaMonitoreoError::IdInvalido => String::from_str("El id es invalido"),
            SistemaMonitoreoError::InternalError => String::from_str(
                "Error tecnico al realizar una operacion",
            ),
            SistemaMonitoreoError::AppConfigError => String::from_str(
                "Error en la configuracion de la aplicacion",
            ),
        }
    }
}

/// Qué pasa cuando un dron llega a resolver un incidente en estado `estado`,
/// al que ya llegaron los drones `drones`: nada si el incidente se canceló;
/// con menos de dos drones, se anota el que llega (si no estaba); con dos,
/// el incidente pasa a ser atendido por ellos dos.
pub open spec fn llegada_de_dron(estado: Estado, drones: Seq<Seq<char>>, dron: Seq<char>) -> (
    Seq<Seq<char>>,
    Option<(Seq<char>, Seq<char>)>,
) {
    match estado {
        Estado::Cancelado => (drones, None),
        _ => if drones.len() < 2 {
            (if drones.contains(dron) { drones } else { drones.push(dron) }, None)
        } else {
            (drones, Some((drones[0], drones[1])))
        },
    }
}

/// Anota la llegada del dron `id_dron` a un incidente en estado `estado`; si
/// el incidente ya tiene sus dos drones, los da para publicar que queda activo.
pub fn resolviendo(estado: &Estado, drones: &mut Vec<String>, id_dron: &str) -> (r: Option<(String, String)>)
    ensures
        ({
            let (ds, par) = llegada_de_dron(*estado, vistas(old(drones)@), id_dron@);
            &&& vistas(final(drones)@) == ds
            &&& match (r, par) {
                (Some((a, b)), Some((x, y))) => a@ == x && b@ == y,
                (None, None) => true,
                _ => false,
            }
        }),
{
    match estado {
        Estado::Cancelado => None,
        _ => {
            if drones.len() < 2 {
                let ghost antes = drones@;
                let mut esta = false;
                for i in 0..drones.len()
                    invariant
                        esta == (exists|j: int| 0 <= j < i && drones@[j]@ == id_dron@),
                {
                    if textos_iguales(drones[i].as_str(), id_dron) {
                        esta = true;
                    }
                }
                proof {
                    if esta {
                        let j = choose|j: int| 0 <= j < drones@.len() && drones@[j]@ == id_dron@;
                        assert(vistas(drones@)[j] == id_dron@);
                    }
                    if vistas(drones@).contains(id_dron@) {
                        let j = choose|j: int| 0 <= j < vistas(drones@).len() && vistas(drones@)[j] == id_dron@;
                        assert(drones@[j]@ == id_dron@);
                    }
                }
                if !esta {
                    drones.push(String::from_str(id_dron));
                    assert(vistas(drones@) =~= vistas(antes).push(id_dron@));
                }
                None
            } else {
                assert(vistas(drones@)[0] == drones@[0]@ && vistas(drones@)[1] == drones@[1]@);
                Some((drones[0].clone(), drones[1].clone()))
            }
        },
    }
}

/// Lo que el sistema de monitoreo hace con su mapa de cámaras cuando la
/// central publica una cámara.
#[derive(Debug, Clone, Copy, PartialEq, Eq, Structural)]
pub enum CambioCamara {
    /// Agregar la cámara, en ahorro de energía.
    Agregar,
    /// Pasar la cámara a ahorro de energía.
    PonerAhorro,
    /// Pasar la cámara a grabando.
    PonerGrabando,
    /// Quitar la cámara.
    Quitar,
    /// Nada: una cámara desconocida que graba, o un estado desconocido.
    Nada,
}

/// El cambio para una cámara publicada con el estado `estado`, según que el
/// mapa ya la tenga (`existe`): `ahorro` la agrega o la pasa a ahorro,
/// `grabando` pasa a grabar a una conocida, `eliminado` la quita.
pub open spec fn cambio_camara(estado: Seq<char>, existe: bool) -> CambioCamara {
    if estado == "ahorro"@ {
        if existe {
            CambioCamara::PonerAhorro
        } else {
            CambioCamara::Agregar
        }
    } else if estado == "grabando"@ {
        if existe {
            CambioCamara::PonerGrabando
        } else {
            CambioCamara::Nada
        }
    } else if estado == "eliminado"@ {
        CambioCamara::Quitar
    } else {
        CambioCamara::Nada
    }
}

/// Decide qué hacer con una cámara publicada con el estado `estado`.
pub fn cambio_de_camara(estado: &str, existe: bool) -> (r: CambioCamara)
    ensures
        r == cambio_camara(estado@, existe),
{
    if textos_iguales(estado, "ahorro") {
        if existe {
            CambioCamara::PonerAhorro
        } else {
            CambioCamara::Agregar
        }
    } else if textos_iguales(estado, "grabando") {
        if existe {
            CambioCamara::PonerGrabando
        } else {
            CambioCamara::Nada
        }
    } else if textos_iguales(estado, "eliminado") {
        CambioCamara::Quitar
    } else {
        CambioCamara::Nada
    }
}

} // verus!
