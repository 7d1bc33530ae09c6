//! Daemon configuration values and their normalisation rules.

use vstd::prelude::*;
use vstd::string::*;
use crate::archive::{has_dotdot_component};
use crate::errors::{AppError, AppResult, validation_error};
use crate::paths::{starts_with, starts_with_chars};
use crate::text::{chars_to_string, spec_trim, str_to_chars, trim_chars};

verus! {

/// The daemon's configuration.
#[derive(Debug, Clone)]
pub struct Config {
    pub database_url: String,
    pub host: String,
    pub port: u16,
    pub uv_path: Option<String>,
}

/// The optional overrides a configuration file may carry.
#[derive(Debug)]
pub struct FileConfig {
    pub database_url: Option<String>,
    pub host: Option<String>,
    pub port: Option<u16>,
    pub uv_path: Option<String>,
}

/// The path following a `sqlite:` scheme.
pub open spec fn sqlite_suffix(url: Seq<char>) -> Seq<char> {
    url.subrange("sqlite:"@.len() as int, url.len() as int)
}

/// Whether the path after the scheme is absolute.
pub open spec fn sqlite_path_abs(url: Seq<char>) -> bool {
    sqlite_suffix(url).len() > 0 && sqlite_suffix(url)[0] == '/'
}

impl Config {
    /// The built-in defaults for a given install root.
    pub fn initial(root: &str) -> (r: Config)
        ensures
            r.database_url@ == "sqlite:"@ + root@ + "/data/atom_node.db"@,
            r.host@ == "127.0.0.1"@,
            r.port == 6701,
            r.uv_path is None,
    {
        let mut url = String::from_str("sqlite:");
        url = url.concat(root);
        url = url.concat("/data/atom_node.db");
        Config {
            database_url: url,
            host: String::from_str("127.0.0.1"),
            port: 6701,
            uv_path: None,
        }
    }

    /// Applies a configuration file's overrides: every present member
    /// replaces the current value.
    pub fn apply_file(&mut self, file_config: FileConfig)
        ensures
            final(self).database_url@ == (match file_config.database_url {
                Some(u) => u@,
                None => old(self).database_url@,
            }),
            final(self).host@ == (match file_config.host {
                Some(h) => h@,
                None => old(self).host@,
            }),
            final(self).port == (match file_config.port {
                Some(p) => p,
                None => old(self).port,
            }),
            crate::models::opt_view(final(self).uv_path) == (match file_config.uv_path {
                Some(p) => Some(p@),
                None => crate::models::opt_view(old(self).uv_path),
            }),
    {
        match file_config.database_url {
            Option::Some(u) => {
                self.database_url = u;
            },
            Option::None => {},
        }
        match file_config.host {
            Option::Some(h) => {
                self.host = h;
            },
            Option::None => {},
        }
        match file_config.port {
            Option::Some(p) => {
                self.port = p;
            },
            Option::None => {},
        }
        match file_config.uv_path {
            Option::Some(p) => {
                self.uv_path = Some(p);
            },
            Option::None => {},
        }
    }

    /// Anchors a relative SQLite path under the install root; an absolute
    /// path must already lie under the root, and parent-dir components are
    /// refused. URLs without the `sqlite:` scheme pass through untouched.
    pub fn normalize_database_url(&mut self, root: &str) -> (r: AppResult<()>)
        ensures
            !starts_with(old(self).database_url@, "sqlite:"@) ==> (r is Ok && *final(self)
                == *old(self)),
            r is Err ==> *final(self) == *old(self),
            r matches Err(e) ==> e is Execution,
            (starts_with(old(self).database_url@, "sqlite:"@) && sqlite_path_abs(
                old(self).database_url@,
            )) ==> ((r is Ok <==> starts_with(sqlite_suffix(old(self).database_url@), root@)) && (
            r is Ok ==> *final(self) == *old(self))),
            (starts_with(old(self).database_url@, "sqlite:"@) && !sqlite_path_abs(
                old(self).database_url@,
            ) && has_dotdot_component(sqlite_suffix(old(self).database_url@))) ==> r is Err,
            (starts_with(old(self).database_url@, "sqlite:"@) && !sqlite_path_abs(
                old(self).database_url@,
            ) && !has_dotdot_component(sqlite_suffix(old(self).database_url@))) ==> (r is Ok
                && final(self).database_url@ == "sqlite:"@ + root@ + seq!['/'] + sqlite_suffix(
                old(self).database_url@,
            ) && final(self).host == old(self).host && final(self).port == old(self).port
                && final(self).uv_path == old(self).uv_path),
    {
        proof {
            reveal_strlit("sqlite:");
        }
        let chars = str_to_chars(self.database_url.as_str());
        let prefix = str_to_chars("sqlite:");
        if !starts_with_chars(&chars, &prefix) {
            return Ok(());
        }
        let path = crate::json::copy_range(&chars, prefix.len(), chars.len());
        if path.len() > 0 && path[0] == '/' {
            let root_chars = str_to_chars(root);
            if starts_with_chars(&path, &root_chars) {
                return Ok(());
            }
            return Err(validation_error("SQLite database path must be under the install root"));
        }
        let mut has_dotdot = false;
        let ghost p = path@;
        let n = path.len();
        let mut i: usize = 0;
        while i < n
            invariant
                i <= n,
                n == p.len(),
                p == path@,
                has_dotdot ==> has_dotdot_component(p),
                !has_dotdot ==> forall|x: int|
                    0 <= x < i && x + 2 <= n ==> !(#[trigger] p.subrange(x, x + 2) == seq![
                        '.',
                        '.',
                    ] && (x == 0 || p[x - 1] == '/') && (x + 2 == n || p[x + 2] == '/')),
            decreases n - i,
        {
            if !has_dotdot && n - i >= 2 && path[i] == '.' && path[i + 1] == '.' && (i == 0
                || path[i - 1] == '/') && (n - i == 2 || path[i + 2] == '/') {
                proof {
                    assert(p.subrange(i as int, i + 2) =~= seq!['.', '.']);
                }
                has_dotdot = true;
            }
            proof {
                if !has_dotdot && i + 2 <= n && p.subrange(i as int, i + 2) == seq!['.', '.'] {
                    assert(p[i as int] == '.' && p[i + 1] == '.') by {
                        assert(p.subrange(i as int, i + 2)[0] == p[i as int]);
                        assert(p.subrange(i as int, i + 2)[1] == p[i + 1]);
                    }
                }
            }
            i = i + 1;
        }
        if has_dotdot {
            return Err(validation_error("SQLite database path cannot contain '..'"));
        }
        proof {
            if has_dotdot_component(p) {
                let x = choose|x: int|
                    0 <= x && x + 2 <= p.len() && #[trigger] p.subrange(x, x + 2) == seq![
                        '.',
                        '.',
                    ] && (x == 0 || p[x - 1] == '/') && (x + 2 == p.len() || p[x + 2] == '/');
                assert(false);
            }
        }
        let mut url = String::from_str("sqlite:");
        url = url.concat(root);
        url = url.concat("/");
        url = url.concat(chars_to_string(&path).as_str());
        proof {
            reveal_strlit("/");
            assert("/"@ =~= seq!['/']);
            assert(url@ =~= "sqlite:"@ + root@ + seq!['/'] + p);
        }
        self.database_url = url;
        Ok(())
    }

    /// Anchors the packaging CLI path under the install root: it must be
    /// relative, non-empty, and free of parent-dir components.
    pub fn normalize_uv_path(&mut self, root: &str) -> (r: AppResult<()>)
        ensures
            old(self).uv_path is None ==> (r is Ok && *final(self) == *old(self)),
            r is Err ==> *final(self) == *old(self),
            r matches Err(e) ==> e is Execution,
            old(self).uv_path matches Some(p) ==> (r is Ok <==> (spec_trim(p@).len() > 0 && !(
            p@.len() > 0 && p@[0] == '/') && !has_dotdot_component(p@))),
            old(self).uv_path matches Some(p) ==> (r is Ok ==> (crate::models::opt_view(
                final(self).uv_path,
            ) == Some(root@ + seq!['/'] + p@) && final(self).database_url == old(
                self,
            ).database_url)),
    {
        let p = (match &self.uv_path {
            Option::Some(p) => p.clone(),
            Option::None => {
                return Ok(());
            },
        });
        let chars = str_to_chars(p.as_str());
        let trimmed = trim_chars(&chars);
        if trimmed.len() == 0 {
            return Err(validation_error("uv_path in config cannot be empty"));
        }
        if chars.len() > 0 && chars[0] == '/' {
            return Err(validation_error("uv_path must be relative to the install root"));
        }
        let mut i: usize = 0;
        let n = chars.len();
        let ghost cs = chars@;
        while i < n
            invariant
                i <= n,
                n == cs.len(),
                cs == chars@,
                forall|x: int|
                    0 <= x < i && x + 2 <= n ==> !(#[trigger] cs.subrange(x, x + 2) == seq![
                        '.',
                        '.',
                    ] && (x == 0 || cs[x - 1] == '/') && (x + 2 == n || cs[x + 2] == '/')),
            decreases n - i,
        {
            if n - i >= 2 && chars[i] == '.' && chars[i + 1] == '.' && (i == 0 || chars[i - 1]
                == '/') && (n - i == 2 || chars[i + 2] == '/') {
                proof {
                    assert(cs.subrange(i as int, i + 2) =~= seq!['.', '.']);
                }
                return Err(validation_error("uv_path cannot contain '..'"));
            }
            proof {
                if i + 2 <= n && cs.subrange(i as int, i + 2) == seq!['.', '.'] {
                    assert(cs[i as int] == '.' && cs[i + 1] == '.') by {
                        assert(cs.subrange(i as int, i + 2)[0] == cs[i as int]);
                        assert(cs.subrange(i as int, i + 2)[1] == cs[i + 1]);
                    }
                }
            }
            i = i + 1;
        }
        proof {
            if has_dotdot_component(cs) {
                let x = choose|x: int|
                    0 <= x && x + 2 <= cs.len() && #[trigger] cs.subrange(x, x + 2) == seq![
                        '.',
                        '.',
                    ] && (x == 0 || cs[x - 1] == '/') && (x + 2 == cs.len() || cs[x + 2] == '/');
                assert(false);
            }
        }
        let mut joined = String::from_str(root);
        joined = joined.concat("/");
        joined = joined.concat(p.as_str());
        proof {
            reveal_strlit("/");
            assert("/"@ =~= seq!['/']);
            assert(joined@ =~= root@ + seq!['/'] + p@);
        }
        self.uv_path = Some(joined);
        Ok(())
    }
}

} // verus!
