//! Where captures live and which editor opens them.

use vstd::prelude::*;
use vstd::utf8::encode_utf8;
use crate::paths::{spec_join, join, copy_bytes};
use crate::text::push_char;

verus! {

/// Why the capture directory could not be resolved.
#[derive(Debug, PartialEq, Eq, Structural)]
pub enum ConfigError {
    /// Neither variable is set and the home directory is unknown.
    NoHomeDir,
}

/// `dirs::home_dir()`, with the path handed back as its raw bytes. What
/// comes back depends on the environment (`$HOME`) and the user database,
/// so the contract promises nothing of it.
#[verifier::external_body]
fn home_dir() -> (res: Option<Vec<u8>>) {
    match dirs::home_dir() {
        Some(p) => Some(p.into_os_string().into_encoded_bytes()),
        None => None,
    }
}

/// The bytes `logs`.
pub open spec fn logs_component() -> Seq<u8> {
    seq![108u8, 111u8, 103u8, 115u8]
}

/// The capture root: `$KLOGZ_DIR`, else `$LOGCAP_DIR`, else `<home>/logs`.
pub open spec fn spec_choose_log_dir(
    klogz_dir: Option<Seq<char>>,
    logcap_dir: Option<Seq<char>>,
    home: Option<Seq<u8>>,
) -> Result<Seq<u8>, ConfigError> {
    match klogz_dir {
        Some(d) => Ok(encode_utf8(d)),
        None => match logcap_dir {
            Some(d) => Ok(encode_utf8(d)),
            None => match home {
                Some(h) => Ok(spec_join(h, logs_component())),
                None => Err(ConfigError::NoHomeDir),
            },
        },
    }
}

/// The view of optional bytes.
pub open spec fn opt_bytes(o: Option<Vec<u8>>) -> Option<Seq<u8>> {
    match o {
        Some(b) => Some(b@),
        None => None,
    }
}

/// The view of a resolved capture root.
pub open spec fn dir_result(r: Result<Vec<u8>, ConfigError>) -> Result<Seq<u8>, ConfigError> {
    match r {
        Ok(p) => Ok(p@),
        Err(e) => Err(e),
    }
}

/// Resolves the capture root from the two variables and the home directory.
pub fn choose_log_dir(
    klogz_dir: Option<String>,
    logcap_dir: Option<String>,
    home: Option<Vec<u8>>,
) -> (res: Result<Vec<u8>, ConfigError>)
    ensures
        dir_result(res) == spec_choose_log_dir(klogz_dir.deep_view(), logcap_dir.deep_view(), opt_bytes(home)),
{
    match klogz_dir {
        Some(d) => Ok(copy_bytes(d.as_str().as_bytes())),
        None => match logcap_dir {
            Some(d) => Ok(copy_bytes(d.as_str().as_bytes())),
            None => match home {
                Some(h) => Ok(join(h.as_slice(), &[108u8, 111u8, 103u8, 115u8])),
                None => Err(ConfigError::NoHomeDir),
            },
        },
    }
}

/// Resolve the root directory where captures are stored, given the values
/// of `$KLOGZ_DIR` and `$LOGCAP_DIR` (`None` when unset). The home
/// directory is looked up only when both are unset.
pub fn log_dir(klogz_dir: Option<String>, logcap_dir: Option<String>) -> (res: Result<Vec<u8>, ConfigError>)
    ensures
        klogz_dir is Some || logcap_dir is Some ==> dir_result(res) == spec_choose_log_dir(
            klogz_dir.deep_view(),
            logcap_dir.deep_view(),
            None,
        ),
        klogz_dir is None && logcap_dir is None ==> exists|home: Option<Seq<u8>>|
            dir_result(res) == #[trigger] spec_choose_log_dir(None, None, home),
{
    if klogz_dir.is_none() && logcap_dir.is_none() {
        let home = home_dir();
        let res = choose_log_dir(None, None, home);
        assert(dir_result(res) == spec_choose_log_dir(None, None, opt_bytes(home)));
        res
    } else {
        choose_log_dir(klogz_dir, logcap_dir, None)
    }
}

/// `$KLOGZ_DIR` wins over `$LOGCAP_DIR`, which wins over `<home>/logs`;
/// the home directory matters only when neither variable is set, and
/// resolving fails only when it is unknown too.
pub proof fn lemma_log_dir_precedence(
    klogz_dir: Option<Seq<char>>,
    logcap_dir: Option<Seq<char>>,
    home: Option<Seq<u8>>,
)
    ensures
        klogz_dir is Some ==> spec_choose_log_dir(klogz_dir, logcap_dir, home) == Ok::<Seq<u8>, ConfigError>(
            encode_utf8(klogz_dir->0),
        ),
        klogz_dir is None && logcap_dir is Some ==> spec_choose_log_dir(klogz_dir, logcap_dir, home) == Ok::<
            Seq<u8>,
            ConfigError,
        >(encode_utf8(logcap_dir->0)),
        klogz_dir is None && logcap_dir is None && home is Some ==> spec_choose_log_dir(
            klogz_dir,
            logcap_dir,
            home,
        ) == Ok::<Seq<u8>, ConfigError>(spec_join(home->0, seq![108u8, 111u8, 103u8, 115u8])),
        spec_choose_log_dir(klogz_dir, logcap_dir, home) is Err <==> (klogz_dir is None && logcap_dir is None
            && home is None),
{
}

/// `$EDITOR` wins over `$VISUAL`, and `nvim` is used when neither is set.
pub proof fn lemma_editor_precedence(editor_var: Option<Seq<char>>, visual_var: Option<Seq<char>>)
    ensures
        editor_var is Some ==> spec_editor(editor_var, visual_var) == editor_var->0,
        editor_var is None && visual_var is Some ==> spec_editor(editor_var, visual_var) == visual_var->0,
        editor_var is None && visual_var is None ==> spec_editor(editor_var, visual_var) == seq![
            'n',
            'v',
            'i',
            'm',
        ],
{
}

/// The editor command: `$EDITOR`, else `$VISUAL`, else `nvim`.
pub open spec fn spec_editor(editor_var: Option<Seq<char>>, visual_var: Option<Seq<char>>) -> Seq<char> {
    match editor_var {
        Some(e) => e,
        None => match visual_var {
            Some(v) => v,
            None => seq!['n', 'v', 'i', 'm'],
        },
    }
}

/// Editor used to open captures, given `$EDITOR` and `$VISUAL`.
pub fn editor(editor_var: Option<String>, visual_var: Option<String>) -> (res: String)
    ensures
        res@ == spec_editor(editor_var.deep_view(), visual_var.deep_view()),
{
    match editor_var {
        Some(e) => e,
        None => match visual_var {
            Some(v) => v,
            None => {
                let mut s = String::new();
                push_char(&mut s, 'n');
                push_char(&mut s, 'v');
                push_char(&mut s, 'i');
                push_char(&mut s, 'm');
                assert(s@ =~= seq!['n', 'v', 'i', 'm']);
                s
            },
        },
    }
}

} // verus!
