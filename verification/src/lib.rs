//! Minimal line-oriented text search: a validated configuration built from
//! positional arguments plus a case-sensitivity flag, and a pure line filter
//! that returns, in order, the lines of a text that contain a query.

mod busqueda;
mod config;
mod texto;

pub use busqueda::busqueda;
pub use busqueda::buscar_distinguido;
pub use busqueda::coincidencias;
pub use busqueda::coincidencias_insensibles;
pub use busqueda::filtrar;
pub use busqueda::filtro_del_modo;
pub use busqueda::filtro_insensible;
pub use busqueda::filtro_sensible;
pub use busqueda::lema_coincidencias_exactas;
pub use busqueda::lema_consulta_vacia_sensible;
pub use busqueda::lema_filtrado_idempotente;
pub use busqueda::lema_insensible_superconjunto;
pub use busqueda::resultado_filtrado;

pub use config::Config;
pub use config::ConfigError;
pub use texto::contiene;
pub use texto::contiene_sub;
pub use texto::lineas;
pub use texto::minusculas_de;
pub use texto::partir_lineas;
pub use texto::vistas;
