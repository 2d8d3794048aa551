//! El estado de los formularios de la interfaz del sistema de monitoreo: el
//! inicio de sesión, la lista de incidentes y la carga de un incidente.
use vstd::prelude::*;
use vstd::string::*;

verus! {

/// El formulario de inicio de sesión.
#[derive(Debug)]
pub struct Login {
    pub username: String,
    pub password: String,
    pub show_incorrect: bool,
    pub login_successful: bool,
}

impl Default for Login {
    /// Un formulario vacío.
    fn default() -> (r: Self)
        ensures
            r.username@ == Seq::<char>::empty(),
            r.password@ == Seq::<char>::empty(),
            !r.show_incorrect,
            !r.login_successful,
    {
        Login {
            username: String::new(),
            password: String::new(),
            show_incorrect: false,
            login_successful: false,
        }
    }
}

impl Login {
    /// Se editó el usuario o la contraseña: deja de mostrarse el aviso de error.
    pub fn campo_editado(&mut self)
        ensures
            final(self).username@ == old(self).username@,
            final(self).password@ == old(self).password@,
            !final(self).show_incorrect,
            final(self).login_successful == old(self).login_successful,
    {
        self.show_incorrect = false;
    }

    /// El resultado de intentar iniciar sesión: si salió bien, la sesión
    /// queda iniciada; si no, se muestra el aviso de error.
    pub fn resultado_inicio(&mut self, exito: bool)
        ensures
            final(self).username@ == old(self).username@,
            final(self).password@ == old(self).password@,
            exito ==> (final(self).login_successful && final(self).show_incorrect
                == old(self).show_incorrect),
            !exito ==> (final(self).show_incorrect && final(self).login_successful
                == old(self).login_successful),
    {
        if exito {
            self.login_successful = true;
        } else {
            self.show_incorrect = true;
        }
    }
}

/// La lista de incidentes, con su título.
#[derive(Debug)]
pub struct Incidencias {
    title: String,
}

impl Default for Incidencias {
    /// La lista con el título `Incidentes`.
    fn default() -> (r: Self)
        ensures
            r.titulo() == "Incidentes"@,
    {
        Incidencias { title: String::from_str("Incidentes") }
    }
}

impl Incidencias {
    /// El título de la lista.
    pub closed spec fn titulo(&self) -> Seq<char> {
        self.title@
    }

    /// El título de la lista.
    pub fn title(&self) -> (r: &String)
        ensures
            r@ == self.titulo(),
    {
        &self.title
    }
}

/// El formulario de carga de un incidente.
#[derive(Debug)]
pub struct FormIncidencia {
    pub etiqueta: String,
    pub longitud: String,
    pub latitud: String,
    pub descripcion: String,
    pub submit_clicked: bool,
}

impl Default for FormIncidencia {
    /// Un formulario vacío.
    fn default() -> (r: Self)
        ensures
            r.etiqueta@ == Seq::<char>::empty(),
            r.longitud@ == Seq::<char>::empty(),
            r.latitud@ == Seq::<char>::empty(),
            r.descripcion@ == Seq::<char>::empty(),
            !r.submit_clicked,
    {
        FormIncidencia {
            etiqueta: String::new(),
            longitud: String::new(),
            latitud: String::new(),
            descripcion: String::new(),
            submit_clicked: false,
        }
    }
}

impl FormIncidencia {
    /// Se pulsó uno de los botones del formulario.
    pub fn boton_pulsado(&mut self)
        ensures
            final(self).submit_clicked,
            final(self).etiqueta@ == old(self).etiqueta@,
            final(self).longitud@ == old(self).longitud@,
            final(self).latitud@ == old(self).latitud@,
            final(self).descripcion@ == old(self).descripcion@,
    {
        self.submit_clicked = true;
    }
}

} // verus!
