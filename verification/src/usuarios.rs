//! Usuarios del servidor, sus credenciales y sus permisos de suscripción y publicación.
use vstd::prelude::*;
use vstd::string::*;
use crate::texto::{vistas, textos_iguales};
use crate::subject::{coincide_subject, subject_matches_token};

verus! {

/// Los datos de un usuario y sus credenciales.
#[derive(Debug)]
pub struct User {
    user: String,
    pass: String,
    subscribe: Vec<String>,
    publish: Vec<String>,
    message_log: String,
}

/// Vista de un usuario.
pub struct UsuarioV {
    pub user: Seq<char>,
    pub pass: Seq<char>,
    pub subscribe: Seq<Seq<char>>,
    pub publish: Seq<Seq<char>>,
    pub message_log: Seq<char>,
}

impl View for User {
    type V = UsuarioV;

    closed spec fn view(&self) -> UsuarioV {
        UsuarioV {
            user: self.user@,
            pass: self.pass@,
            subscribe: vistas(self.subscribe@),
            publish: vistas(self.publish@),
            message_log: self.message_log@,
        }
    }
}

/// Copia un vector de textos.
pub fn copiar_textos(v: &Vec<String>) -> (r: Vec<String>)
    ensures
        vistas(r@) == vistas(v@),
{
    let mut r: Vec<String> = Vec::new();
    for i in 0..v.len()
        invariant
            vistas(r@) == vistas(v@).take(i as int),
    {
        let t = v[i].clone();
        let ghost antes = r@;
        r.push(t);
        assert(vistas(r@) =~= vistas(v@).take(i + 1)) by {
            assert(r@ =~= antes.push(t));
            assert(vistas(antes.push(t)) =~= vistas(antes).push(t@));
        }
    }
    assert(vistas(v@).take(v@.len() as int) =~= vistas(v@));
    r
}

impl User {
    pub fn new(
        user: String,
        pass: String,
        subscribe: Vec<String>,
        publish: Vec<String>,
        message_log: &str,
    ) -> (r: Self)
        ensures
            r@.user == user@,
            r@.pass == pass@,
            r@.subscribe == vistas(subscribe@),
            r@.publish == vistas(publish@),
            r@.message_log == message_log@,
    {
        User { user, pass, subscribe, publish, message_log: String::from_str(message_log) }
    }

    pub fn get_user(&self) -> (r: &str)
        ensures
            r@ == self@.user,
    {
        self.user.as_str()
    }

    pub fn get_pass(&self) -> (r: &str)
        ensures
            r@ == self@.pass,
    {
        self.pass.as_str()
    }

    pub fn get_subscribe(&self) -> (r: Vec<String>)
        ensures
            vistas(r@) == self@.subscribe,
    {
        copiar_textos(&self.subscribe)
    }

    pub fn get_publish(&self) -> (r: Vec<String>)
        ensures
            vistas(r@) == self@.publish,
    {
        copiar_textos(&self.publish)
    }

    pub fn get_log(&self) -> (r: &str)
        ensures
            r@ == self@.message_log,
    {
        self.message_log.as_str()
    }
}

/// Algún patrón de la lista acepta el subject.
pub open spec fn algun_patron_acepta(patrones: Seq<Seq<char>>, subject: Seq<char>) -> bool {
    exists|i: int| 0 <= i < patrones.len() && coincide_subject(#[trigger] patrones[i], subject)
}

/// Permisos de suscripción y publicación sobre subjects.
#[derive(Debug)]
pub struct UserPermissions {
    subscribe: Vec<String>,
    publish: Vec<String>,
}

/// Vista de los permisos: los patrones de suscripción y de publicación.
pub struct PermisosV {
    pub subscribe: Seq<Seq<char>>,
    pub publish: Seq<Seq<char>>,
}

impl View for UserPermissions {
    type V = PermisosV;

    closed spec fn view(&self) -> PermisosV {
        PermisosV { subscribe: vistas(self.subscribe@), publish: vistas(self.publish@) }
    }
}

/// Indica si algún patrón de `patrones` acepta `subject`.
fn algun_patron(patrones: &Vec<String>, subject: &str) -> (r: bool)
    ensures
        r == algun_patron_acepta(vistas(patrones@), subject@),
{
    let ghost ps = vistas(patrones@);
    for i in 0..patrones.len()
        invariant
            ps == vistas(patrones@),
            forall|j: int| 0 <= j < i ==> !coincide_subject(#[trigger] ps[j], subject@),
    {
        if subject_matches_token(patrones[i].as_str(), subject) {
            assert(coincide_subject(ps[i as int], subject@));
            return true;
        }
    }
    false
}

impl UserPermissions {
    /// Los permisos de un usuario (copiados de sus datos).
    pub fn from(user: &User) -> (r: UserPermissions)
        ensures
            r@.subscribe == user@.subscribe,
            r@.publish == user@.publish,
    {
        UserPermissions { subscribe: user.get_subscribe(), publish: user.get_publish() }
    }

    /// Devuelve true si tiene permisos para suscribirse a ese subject.
    pub fn can_subscribe(&self, subject: &str) -> (r: bool)
        ensures
            r == algun_patron_acepta(self@.subscribe, subject@),
    {
        algun_patron(&self.subscribe, subject)
    }

    /// Devuelve true si tiene permisos para publicar sobre ese subject.
    pub fn can_publish(&self, subject: &str) -> (r: bool)
        ensures
            r == algun_patron_acepta(self@.publish, subject@),
    {
        algun_patron(&self.publish, subject)
    }
}

/// Repositorio de usuarios, que busca un usuario por nombre y contraseña.
pub trait UsersRepository {
    /// El usuario que el repositorio encuentra con ese nombre y contraseña, si alguno.
    spec fn encontrado(&self, username: Seq<char>, password: Seq<char>) -> Option<UsuarioV>;

    /// Busca el usuario con ese nombre y contraseña.
    fn find_user_by_username_and_password(&self, username: &str, password: &str) -> (r: Option<User>)
        ensures
            match (r, self.encontrado(username@, password@)) {
                (Some(u), Some(v)) => u@ == v,
                (None, None) => true,
                _ => false,
            },
    ;
}

/// Lo que `bcrypt::verify` responde al comparar la contraseña con el hash
/// (`None` si informa un error, por ejemplo un hash mal formado).
pub uninterp spec fn bcrypt_verifica(password: Seq<char>, hash: Seq<char>) -> Option<bool>;

/// Compara la contraseña con el hash con `bcrypt::verify`. Se afirma que la
/// respuesta es la nombrada `bcrypt_verifica`, con los errores como `None`.
#[verifier::external_body]
fn verificar_bcrypt(password: &str, hash: &str) -> (r: Option<bool>)
    ensures
        r == bcrypt_verifica(password@, hash@),
{
    bcrypt::verify(password, hash).ok()
}

/// Repositorio con los usuarios conocidos por el servidor.
pub struct InMemoryUsersRepository {}

/// El primer usuario de `usuarios` con ese nombre cuya contraseña verifica su hash.
pub open spec fn primer_usuario_valido(
    usuarios: Seq<UsuarioV>,
    username: Seq<char>,
    password: Seq<char>,
) -> Option<UsuarioV>
    decreases usuarios.len(),
{
    if usuarios.len() == 0 {
        None
    } else if usuarios[0].user == username && bcrypt_verifica(password, usuarios[0].pass)
        == Some(true) {
        Some(usuarios[0])
    } else {
        primer_usuario_valido(usuarios.drop_first(), username, password)
    }
}

/// El hash de la contraseña del usuario `a`.
pub open spec fn hash_a() -> Seq<char> {
    "$2b$12$9XmsdBtXYrDfZjKpsIvfp.WTIAnU/05JQcogfvb5OhiLGxKQXLWE2"@
}

/// El hash de la contraseña de los demás usuarios.
pub open spec fn hash_comun() -> Seq<char> {
    "$2b$12$ZRwLf1rHZJi4AIjj6f5YOeHGRIulIyfzjIr8DWjkDjg0lGHitNgIi"@
}

/// Un usuario conocido con los permisos de los servicios: todo subject.
pub open spec fn usuario_servicio(nombre: Seq<char>, log: Seq<char>) -> UsuarioV {
    UsuarioV {
        user: nombre,
        pass: hash_comun(),
        subscribe: seq![">"@],
        publish: seq![">"@, "time.us"@],
        message_log: log,
    }
}

/// Los usuarios conocidos por el servidor, en orden.
pub open spec fn usuarios_conocidos() -> Seq<UsuarioV> {
    seq![
        UsuarioV {
            user: "a"@,
            pass: hash_a(),
            subscribe: seq!["time"@, "time.us"@],
            publish: seq!["time"@, "time.us"@],
            message_log: "a_log.txt"@,
        },
        usuario_servicio("b"@, "b_log.txt"@),
        usuario_servicio("sismonitoreo"@, "sismonitoreo_log.txt"@),
        usuario_servicio("centralcamaras"@, "centralcamaras_log.txt"@),
        usuario_servicio("dronuno"@, "dronuno_log.txt"@),
    ]
}

/// Dos textos dados.
fn dos(a: &str, b: &str) -> (r: Vec<String>)
    ensures
        vistas(r@) == seq![a@, b@],
{
    let mut v: Vec<String> = Vec::new();
    v.push(String::from_str(a));
    v.push(String::from_str(b));
    assert(vistas(v@) =~= seq![a@, b@]);
    v
}

/// Un texto dado.
fn uno(a: &str) -> (r: Vec<String>)
    ensures
        vistas(r@) == seq![a@],
{
    let mut v: Vec<String> = Vec::new();
    v.push(String::from_str(a));
    assert(vistas(v@) =~= seq![a@]);
    v
}

/// Un usuario de servicio: se suscribe a todo y publica en todo y en `time.us`.
fn servicio(nombre: &str, log: &str) -> (r: User)
    ensures
        r@ == usuario_servicio(nombre@, log@),
{
    User::new(
        String::from_str(nombre),
        String::from_str("$2b$12$ZRwLf1rHZJi4AIjj6f5YOeHGRIulIyfzjIr8DWjkDjg0lGHitNgIi"),
        uno(">"),
        dos(">", "time.us"),
        log,
    )
}

/// Los datos y credenciales de los usuarios conocidos.
pub fn find_users() -> (r: Vec<User>)
    ensures
        r@.map_values(|u: User| u@) == usuarios_conocidos(),
{
    let mut users: Vec<User> = Vec::new();
    users.push(
        User::new(
            String::from_str("a"),
            String::from_str("$2b$12$9XmsdBtXYrDfZjKpsIvfp.WTIAnU/05JQcogfvb5OhiLGxKQXLWE2"),
            dos("time", "time.us"),
            dos("time", "time.us"),
            "a_log.txt",
        ),
    );
    users.push(servicio("b", "b_log.txt"));
    users.push(servicio("sismonitoreo", "sismonitoreo_log.txt"));
    users.push(servicio("centralcamaras", "centralcamaras_log.txt"));
    users.push(servicio("dronuno", "dronuno_log.txt"));
    assert(users@.map_values(|u: User| u@) =~= usuarios_conocidos());
    users
}

impl InMemoryUsersRepository {
    pub fn new() -> (r: Self) {
        InMemoryUsersRepository {  }
    }
}

impl UsersRepository for InMemoryUsersRepository {
    /// El primer usuario conocido con ese nombre cuya contraseña verifica su hash.
    open spec fn encontrado(&self, username: Seq<char>, password: Seq<char>) -> Option<UsuarioV> {
        primer_usuario_valido(usuarios_conocidos(), username, password)
    }

    /// El primer usuario conocido con ese nombre cuya contraseña verifica su hash.
    fn find_user_by_username_and_password(&self, username: &str, password: &str) -> (r: Option<User>)
        ensures
            match (r, primer_usuario_valido(usuarios_conocidos(), username@, password@)) {
                (Some(u), Some(v)) => u@ == v,
                (None, None) => true,
                _ => false,
            },
    {
        let mut users = find_users();
        let ghost todos = users@.map_values(|u: User| u@);
        let mut i: usize = 0;
        assert(todos.skip(0) =~= todos);
        while i < users.len()
            invariant
                todos == usuarios_conocidos(),
                todos.len() == 5,
                users@.len() == 5,
                i <= users@.len(),
                forall|j: int| i <= j < 5 ==> users@[j]@ == todos[j],
                primer_usuario_valido(todos, username@, password@) == primer_usuario_valido(
                    todos.skip(i as int),
                    username@,
                    password@,
                ),
            decreases users@.len() - i,
        {
            assert(todos.skip(i as int)[0] == todos[i as int]);
            assert(todos.skip(i as int).drop_first() =~= todos.skip(i + 1));
            let coincide = textos_iguales(users[i].get_user(), username) && match verificar_bcrypt(
                password,
                users[i].get_pass(),
            ) {
                Some(true) => true,
                _ => false,
            };
            if coincide {
                let u = users.remove(i);
                return Some(u);
            }
            i = i + 1;
        }
        assert(todos.skip(5).len() == 0);
        None
    }
}

} // verus!
