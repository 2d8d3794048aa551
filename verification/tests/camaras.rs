use std::collections::HashMap;

use nats_icwt::camaras::{Camara, Cambio, CentralDeCamaras};
use nats_icwt::monitoreo::{ErroresCentral, EstadoCamara};

const AREA_INCIDENTE: f64 = 1.1;
const AREA_LINDANTE: f64 = 3.1;

fn en_rango(p: (f64, f64), lat: f64, long: f64, area: f64) -> bool {
    (p.0 - lat).abs() <= area && (p.1 - long).abs() <= area
}

/// Una central como la del programa: la lógica de la biblioteca más las
/// posiciones de las cámaras y la publicación de cada cambio.
struct Central {
    logica: CentralDeCamaras,
    posiciones: HashMap<usize, (f64, f64)>,
    falla_publicar: bool,
    publicados: Vec<String>,
}

struct InfoCamara {
    estado: EstadoCamara,
    lat: f64,
    long: f64,
}

impl InfoCamara {
    fn get_estado(&self) -> EstadoCamara {
        self.estado
    }
}

impl Central {
    fn init(falla_publicar: bool) -> Central {
        Central { logica: CentralDeCamaras::new(), posiciones: HashMap::new(), falla_publicar, publicados: vec![] }
    }

    fn publicar(&mut self, lat: f64, long: f64, estado: &str, id: usize) -> Result<(), ErroresCentral> {
        if self.falla_publicar {
            return Err(ErroresCentral::InternalError("Al hacer publish de camara".to_string()));
        }
        self.publicados.push(format!("{} {} {} {}", lat, long, estado, id));
        Ok(())
    }

    fn nueva_camara(&mut self, lat: f64, long: f64) -> Result<usize, ErroresCentral> {
        let id = self.logica.nueva_camara();
        self.posiciones.insert(id, (lat, long));
        self.publicar(lat, long, "ahorro", id)?;
        Ok(id)
    }

    fn ids(&self) -> Vec<usize> {
        self.logica.camaras().iter().map(|c| c.get_id()).collect()
    }

    fn lindantes_de(&self, id: usize) -> Vec<usize> {
        let p = self.posiciones[&id];
        self.ids()
            .into_iter()
            .filter(|j| en_rango(self.posiciones[j], p.0, p.1, AREA_LINDANTE))
            .collect()
    }

    fn informar(&mut self, cambios: Vec<Cambio>) {
        for c in cambios {
            let (lat, long) = self.posiciones[&c.camara];
            let estado = match c.estado {
                EstadoCamara::Grabando => "grabando",
                EstadoCamara::AhorroDeEnergia => "ahorro",
            };
            let _ = self.publicar(lat, long, estado, c.camara);
        }
    }

    fn enviar_incidente(&mut self, payload: &str) {
        let partes: Vec<&str> = payload.split_whitespace().collect();
        let id: i32 = partes[0].parse().unwrap();
        let lat: f64 = partes[1].parse().unwrap();
        let long: f64 = partes[2].parse().unwrap();
        let estado = partes[3];
        let en_area: Vec<usize> = self
            .ids()
            .into_iter()
            .filter(|j| en_rango(self.posiciones[j], lat, long, AREA_INCIDENTE))
            .collect();
        let lindantes: Vec<Vec<usize>> = self.ids().into_iter().map(|j| self.lindantes_de(j)).collect();
        let cambios = self.logica.procesar_incidente(id, estado, &en_area, &lindantes).unwrap();
        self.informar(cambios);
    }

    fn eliminar_camara(&mut self, id: &usize) -> Result<(), ErroresCentral> {
        let lindantes = if self.posiciones.contains_key(id) { self.lindantes_de(*id) } else { vec![] };
        let cambios = self.logica.eliminar_camara(*id, &lindantes).unwrap()?;
        self.informar(cambios);
        self.posiciones.remove(id);
        self.publicar(0.0, 0.0, "eliminado", *id)
    }

    fn obtener_info_camaras(&self) -> Vec<InfoCamara> {
        self.logica
            .camaras()
            .iter()
            .map(|c: &Camara| {
                let (lat, long) = self.posiciones[&c.get_id()];
                InfoCamara { estado: c.get_estado(), lat, long }
            })
            .collect()
    }
}

fn cuatro_camaras() -> Central {
    let mut central = Central::init(false);
    central.nueva_camara(2.0, 1.0).unwrap();
    central.nueva_camara(3.0, 1.0).unwrap();
    central.nueva_camara(4.0, 1.0).unwrap();
    central.nueva_camara(5.0, 2.0).unwrap();
    central
}

fn estados(central: &Central) -> Vec<EstadoCamara> {
    central.obtener_info_camaras().iter().map(|c| c.get_estado()).collect()
}

use EstadoCamara::{AhorroDeEnergia as A, Grabando as G};

#[test]
fn test01_nueva_camara() {
    let mut central = Central::init(false);

    central.nueva_camara(1.0, 1.0).unwrap();

    let camaras = central.obtener_info_camaras();
    assert_eq!(camaras.len(), 1);
    assert_eq!(camaras[0].lat, 1.0);
    assert_eq!(camaras[0].long, 1.0);
}

#[test]
fn test02_error_al_publicar_creacion_camara() {
    let mut central = Central::init(true);

    let res = central.nueva_camara(1.0, 1.0).unwrap_err();
    assert!(matches!(res, ErroresCentral::InternalError(_)));
}

#[test]
fn test03_muchas_camaras_nuevas_ok() {
    let mut central = Central::init(false);

    central.nueva_camara(1.0, 1.0).unwrap();
    central.nueva_camara(2.0, 2.0).unwrap();

    let camaras = central.obtener_info_camaras();
    assert_eq!(camaras.len(), 2);
}

#[test]
fn test04_incidente_lejos_no_cambia_estado() {
    let mut central = Central::init(false);
    central.nueva_camara(1.0, 1.0).unwrap();

    central.enviar_incidente("0 50000 500001 pendiente");

    let camaras = central.obtener_info_camaras();
    assert_eq!(camaras.len(), 1);
    assert_eq!(camaras[0].get_estado(), EstadoCamara::AhorroDeEnergia);
}

#[test]
fn test05_incidente_cerca_cambia_estado() {
    let mut central = Central::init(false);
    central.nueva_camara(1.0, 1.0).unwrap();

    central.enviar_incidente("0 1 1 pendiente");

    let camaras = central.obtener_info_camaras();
    assert_eq!(camaras.len(), 1);
    assert_eq!(camaras[0].get_estado(), EstadoCamara::Grabando);
}

#[test]
fn test06_incidente_cancelado_cambia_estado_ahorro() {
    let mut central = Central::init(false);
    central.nueva_camara(1.0, 1.0).unwrap();
    central.enviar_incidente("0 1 1 pendiente");

    central.enviar_incidente("0 1 1 cancelado");

    let camaras = central.obtener_info_camaras();
    assert_eq!(camaras.len(), 1);
    assert_eq!(camaras[0].get_estado(), EstadoCamara::AhorroDeEnergia);
}

#[test]
fn test07_incidentes_uno_cancelado_uno_pendiente_mantiene_estado_grabando() {
    let mut central = Central::init(false);
    central.nueva_camara(1.0, 1.0).unwrap();

    central.enviar_incidente("0 1 1 pendiente");
    central.enviar_incidente("1 2 2 pendiente");
    central.enviar_incidente("0 1 1 cancelado");

    let camaras = central.obtener_info_camaras();
    assert_eq!(camaras.len(), 1);
    assert_eq!(camaras[0].get_estado(), EstadoCamara::Grabando);
}

#[test]
fn test08_eliminar_camara_existente() {
    let mut central = Central::init(false);
    central.nueva_camara(1.0, 1.0).unwrap();

    central.eliminar_camara(&1).unwrap();

    let camaras = central.obtener_info_camaras();
    assert_eq!(camaras.len(), 0);
}

#[test]
fn test09_eliminar_camara_inexistente() {
    let mut central = Central::init(false);
    central.nueva_camara(1.0, 1.0).unwrap();

    let err = central.eliminar_camara(&2).unwrap_err();

    assert!(matches!(err, ErroresCentral::NoSePudoBorrarLaCamara));
}

#[test]
fn test10_camara_en_rango_incidente_se_activa_y_sus_lindantes() {
    let mut central = cuatro_camaras();

    central.enviar_incidente("0 1 1 pendiente");

    assert_eq!(estados(&central), vec![G, G, G, G]);
}

#[test]
fn test11_camara_en_rango_incidente_y_sus_lindantes_al_eliminar_incidente_toda_pasan_ahorro_de_energia() {
    let mut central = cuatro_camaras();

    central.enviar_incidente("0 1 1 pendiente");
    assert_eq!(estados(&central), vec![G, G, G, G]);

    central.enviar_incidente("0 1 1 cancelado");
    assert_eq!(estados(&central), vec![A, A, A, A]);
}

#[test]
fn test12_2_incidenetes_al_aliminar_uno_en_misma_posicion_camaras_y_lindantes_se_mantienen_grabando() {
    let mut central = cuatro_camaras();

    central.enviar_incidente("0 1 1 pendiente");
    central.enviar_incidente("1 1 1 pendiente");
    assert_eq!(estados(&central), vec![G, G, G, G]);

    central.enviar_incidente("0 1 1 cancelado");
    assert_eq!(estados(&central), vec![G, G, G, G]);
}

#[test]
fn test13_muchos_incidenetes_todos_eliminados_todas_las_camaras_en_ahorro_de_energia() {
    let mut central = cuatro_camaras();

    for i in 0..5 {
        central.enviar_incidente(&format!("{} 1 1 pendiente", i));
    }
    assert_eq!(estados(&central), vec![G, G, G, G]);

    for i in 0..5 {
        central.enviar_incidente(&format!("{} 1 1 cancelado", i));
    }
    assert_eq!(estados(&central), vec![A, A, A, A]);
}

#[test]
fn test14_muchos_incidenetes_todos_eliminados_menos_1_camaras_siguen_grabando() {
    let mut central = cuatro_camaras();

    for i in 0..5 {
        central.enviar_incidente(&format!("{} 1 1 pendiente", i));
    }
    assert_eq!(estados(&central), vec![G, G, G, G]);

    for i in 0..4 {
        central.enviar_incidente(&format!("{} 1 1 cancelado", i));
    }
    assert_eq!(estados(&central), vec![G, G, G, G]);
}

#[test]
fn test15_camaras_fuera_del_rango_de_incidente_y_fuera_de_rango_de_ser_lindantes_de_las_que_tienen_incidente_no_graban() {
    let mut central = Central::init(false);
    central.nueva_camara(2.0, 1.0).unwrap();
    central.nueva_camara(8.0, 8.0).unwrap();
    central.nueva_camara(7.0, 7.0).unwrap();

    central.enviar_incidente("0 1 1 pendiente");

    assert_eq!(estados(&central), vec![G, A, A]);
}

#[test]
fn test16_camaras_fuera_del_rango_de_incidente_y_fuera_de_rango_de_ser_lindantes_de_las_que_tienen_incidente_no_graban_al_ser_incdente_eliminado_todas_no_graban() {
    let mut central = Central::init(false);
    central.nueva_camara(2.0, 1.0).unwrap();
    central.nueva_camara(8.0, 8.0).unwrap();
    central.nueva_camara(7.0, 7.0).unwrap();

    central.enviar_incidente("0 1 1 pendiente");
    assert_eq!(estados(&central), vec![G, A, A]);

    central.enviar_incidente("0 1 1 cancelado");
    assert_eq!(estados(&central), vec![A, A, A]);
}

fn camaras_entre_dos_incidentes(primera: (f64, f64), tercera: (f64, f64)) -> Central {
    let mut central = Central::init(false);
    central.nueva_camara(primera.0, primera.1).unwrap();
    central.nueva_camara(8.0, 8.0).unwrap();
    central.nueva_camara(tercera.0, tercera.1).unwrap();
    central.nueva_camara(4.0, 4.0).unwrap();
    central.nueva_camara(5.0, 5.0).unwrap();
    central.nueva_camara(6.0, 6.0).unwrap();
    central.nueva_camara(7.0, 7.0).unwrap();
    central
}

#[test]
fn test17_camaras_lindantes_graban_por_dos_camaras_distintas_con_incidentes_distintos() {
    let mut central = camaras_entre_dos_incidentes((2.0, 1.0), (3.0, 1.0));

    central.enviar_incidente("0 1 1 pendiente");
    central.enviar_incidente("1 9 9 pendiente");

    assert_eq!(estados(&central), vec![G, G, G, G, G, G, G]);
}

#[test]
fn test18_camaras_lindantes_graban_por_dos_camaras_distintas_con_incidentes_distintos_al_eliminar_incidente_de_un_extremo_manitnene_lindante_por_la_otra_cam_con_incidente() {
    let mut central = camaras_entre_dos_incidentes((2.0, 1.0), (3.0, 1.0));

    central.enviar_incidente("0 1 1 pendiente");
    central.enviar_incidente("1 9 9 pendiente");
    let e = estados(&central);
    assert_eq!((e[0], e[1], e[2], e[4], e[5], e[6]), (G, G, G, G, G, G));

    central.enviar_incidente("0 1 1 cancelado");
    let e = estados(&central);
    assert_eq!(e.len(), 7);
    assert_eq!((e[0], e[1], e[2], e[4], e[5], e[6]), (A, G, A, G, G, G));
}

#[test]
fn test19_dos_camaras_en_extremos_con_incdente_una_deja_de_tener_incidente_y_alcanza_a_la_que_tiene_al_limite_de_lindante() {
    let mut central = camaras_entre_dos_incidentes((2.0, 2.0), (3.0, 3.0));

    central.enviar_incidente("0 1 1 pendiente");
    central.enviar_incidente("1 9 9 pendiente");
    assert_eq!(estados(&central), vec![G, G, G, G, G, G, G]);

    central.enviar_incidente("0 1 1 cancelado");
    assert_eq!(estados(&central), vec![A, G, A, A, G, G, G]);
}

#[test]
fn test20_camara_es_lindante_a_dos_camaras_con_incidente_y_pasa_a_estado_ahorro_cuando_ambas_dejan_de_tener_incidente() {
    let mut central = camaras_entre_dos_incidentes((2.0, 2.0), (3.0, 3.0));

    central.enviar_incidente("0 1 1 pendiente");
    central.enviar_incidente("1 9 9 pendiente");
    assert_eq!(estados(&central), vec![G, G, G, G, G, G, G]);

    central.enviar_incidente("0 1 1 cancelado");
    assert_eq!(estados(&central), vec![A, G, A, A, G, G, G]);

    central.enviar_incidente("1 9 9 cancelado");
    assert_eq!(estados(&central), vec![A, A, A, A, A, A, A]);
}

#[test]
fn un_incidente_repetido_no_cambia_nada() {
    let mut central = Central::init(false);
    central.nueva_camara(1.0, 1.0).unwrap();
    central.enviar_incidente("0 1 1 pendiente");
    let publicados = central.publicados.len();

    central.enviar_incidente("0 1 1 pendiente");
    central.enviar_incidente("7 1 1 activo");

    assert_eq!(central.publicados.len(), publicados);
    assert_eq!(estados(&central), vec![G]);
    assert_eq!(central.logica.camaras()[0].numlindantes(), 0);
}

#[test]
fn los_cambios_se_informan_en_orden() {
    let mut central = cuatro_camaras();
    let logica = &mut central.logica;
    let ids: Vec<usize> = logica.camaras().iter().map(|c| c.get_id()).collect();
    let todos = vec![ids.clone(); 4];

    let cambios = logica.procesar_incidente(0, "pendiente", &vec![1], &todos).unwrap();

    assert_eq!(
        cambios,
        vec![
            Cambio { camara: 1, estado: G },
            Cambio { camara: 2, estado: G },
            Cambio { camara: 3, estado: G },
            Cambio { camara: 4, estado: G },
        ]
    );
    let cams = logica.camaras();
    assert_eq!(cams[0].numlindantes(), 0);
    assert_eq!(cams[1].numlindantes(), 1);
    assert!(cams[0].contiene_incidente(0));
    assert_eq!(cams[0].get_cantidad_incidentes(), 1);
}

#[test]
fn eliminar_una_camara_con_incidente_libera_a_sus_lindantes() {
    let mut central = cuatro_camaras();
    central.enviar_incidente("0 1 1 pendiente");

    central.eliminar_camara(&1).unwrap();

    assert_eq!(estados(&central), vec![A, A, A]);
    assert_eq!(central.publicados.last().unwrap(), "0 0 eliminado 1");
}

#[test]
fn los_ids_de_camaras_nuevas_crecen() {
    let mut central = Central::init(false);
    assert_eq!(central.nueva_camara(0.0, 0.0).unwrap(), 1);
    assert_eq!(central.nueva_camara(0.0, 0.0).unwrap(), 2);
    central.eliminar_camara(&1).unwrap();
    assert_eq!(central.nueva_camara(0.0, 0.0).unwrap(), 3);
    assert_eq!(central.ids(), vec![2, 3]);
    assert_eq!(central.logica.ultimo_id(), 3);
}

#[test]
fn un_estado_desconocido_solo_se_registra() {
    let mut central = Central::init(false);
    central.nueva_camara(1.0, 1.0).unwrap();
    central.enviar_incidente("0 1 1 resuelto");
    assert_eq!(estados(&central), vec![A]);
    let cambios = central.logica.procesar_incidente(0, "resuelto", &vec![1], &vec![vec![1]]).unwrap();
    assert!(cambios.is_empty());
}

#[test]
fn una_camara_nueva_empieza_en_ahorro() {
    let c = Camara::new(9);
    assert_eq!(c.get_estado(), A);
    assert_eq!(c.get_id(), 9);
    assert_eq!(c.numlindantes(), 0);
    assert_eq!(EstadoCamara::Grabando.to_string(), "Grabando");
}

#[test]
fn cancelar_deshace_los_contadores_del_pendiente() {
    let mut central = cuatro_camaras();
    central.enviar_incidente("7 1 1 pendiente");
    let antes: Vec<i32> = central.logica.camaras().iter().map(|c| c.numlindantes()).collect();
    assert_eq!(antes, vec![0, 1, 1, 1]);

    central.enviar_incidente("3 2 1 pendiente");
    central.enviar_incidente("3 2 1 cancelado");

    let despues: Vec<i32> = central.logica.camaras().iter().map(|c| c.numlindantes()).collect();
    let incidentes: Vec<usize> = central.logica.camaras().iter().map(|c| c.get_cantidad_incidentes()).collect();
    assert_eq!(despues, antes);
    assert_eq!(incidentes, vec![1, 0, 0, 0]);
}

#[test]
fn pendientes_cancelados_dejan_todo_en_ahorro() {
    let mut central = cuatro_camaras();
    central.enviar_incidente("7 1 1 pendiente");
    central.enviar_incidente("7 1 1 cancelado");
    central.enviar_incidente("8 2 1 pendiente");
    assert!(estados(&central).contains(&EstadoCamara::Grabando));
    central.enviar_incidente("8 2 1 cancelado");
    assert!(estados(&central).iter().all(|e| *e == EstadoCamara::AhorroDeEnergia));
    let contadores: Vec<i32> = central.logica.camaras().iter().map(|c| c.numlindantes()).collect();
    assert_eq!(contadores, vec![0, 0, 0, 0]);
}

#[test]
fn incidentes_superpuestos_cancelados_en_otro_orden_dejan_todo_en_ahorro() {
    let mut central = cuatro_camaras();
    central.enviar_incidente("7 1 1 pendiente");
    central.enviar_incidente("8 5 2 pendiente");
    central.enviar_incidente("9 3 1 pendiente");
    assert!(estados(&central).contains(&G));
    central.enviar_incidente("8 5 2 cancelado");
    assert!(estados(&central).contains(&G));
    central.enviar_incidente("7 1 1 cancelado");
    assert!(estados(&central).contains(&G));
    central.enviar_incidente("9 3 1 cancelado");
    assert_eq!(estados(&central), vec![A, A, A, A]);
    let contadores: Vec<i32> = central.logica.camaras().iter().map(|c| c.numlindantes()).collect();
    assert_eq!(contadores, vec![0, 0, 0, 0]);
}
