//! The configuration of one search: a query, a file path, and whether the
//! match distinguishes upper from lower case.

use vstd::prelude::*;

verus! {

/// Why no configuration could be built from the inputs.
#[derive(Clone, Copy, Debug, PartialEq, Eq, Structural)]
pub enum ConfigError {
    /// No search term was supplied.
    MissingQuery,
    /// A search term was supplied, but no file path.
    MissingPath,
}

/// A validated configuration: the search term, the file to search, and
/// whether matching distinguishes case. `distinguir` is true for a
/// case-sensitive search.
pub struct Config {
    pub consulta: String,
    pub ruta: String,
    pub distinguir: bool,
}

impl Config {
    /// A well-formed configuration holds a non-empty query and a non-empty path.
    pub open spec fn valida(&self) -> bool {
        self.consulta@.len() > 0 && self.ruta@.len() > 0
    }

    /// Builds the configuration from the raw argument list and the presence of
    /// the case-insensitivity flag. The first argument is the program's own
    /// name and is skipped; the next two are the query and the path, in that
    /// order, and each must be present and non-empty. The search is
    /// case-sensitive exactly when the flag is absent.
    pub fn build(args: &Vec<String>, ignorar: bool) -> (r: Result<Config, ConfigError>)
        ensures
            match r {
                Ok(c) => {
                    &&& args@.len() >= 3
                    &&& args@[1]@.len() > 0
                    &&& args@[2]@.len() > 0
                    &&& c.consulta@ == args@[1]@
                    &&& c.ruta@ == args@[2]@
                    &&& c.distinguir == !ignorar
                    &&& c.valida()
                },
                Err(ConfigError::MissingQuery) => args@.len() <= 1 || args@[1]@.len() == 0,
                Err(ConfigError::MissingPath) => {
                    &&& args@.len() >= 2
                    &&& args@[1]@.len() > 0
                    &&& (args@.len() == 2 || args@[2]@.len() == 0)
                },
            },
    {
        if args.len() <= 1 {
            return Err(ConfigError::MissingQuery);
        }
        let consulta = &args[1];
        if consulta.as_str().is_empty() {
            return Err(ConfigError::MissingQuery);
        }
        if args.len() <= 2 {
            return Err(ConfigError::MissingPath);
        }
        let ruta = &args[2];
        if ruta.as_str().is_empty() {
            return Err(ConfigError::MissingPath);
        }
        Ok(Config { consulta: consulta.clone(), ruta: ruta.clone(), distinguir: !ignorar })
    }
}

} // verus!
