//! The configuration surface the core consumes, and its validation.
//!
//! Reading the configuration file, locating it, and decoding its syntax
//! happen outside the library; what arrives here are plain values, and
//! the library decides whether they make a usable configuration.

use vstd::prelude::*;

use crate::template;
use crate::template::{format_spec, values_view};

verus! {

/// Scanner settings: the roots to scan and the exclusion patterns the
/// schema defines (kept, as configured, but not consulted by the
/// traversal).
pub struct FilesystemScannerConfig {
    pub roots: Vec<String>,
    pub excludes: Vec<String>,
}

pub struct FilesystemConfig {
    pub scanner: FilesystemScannerConfig,
}

pub struct ViewConfig {
    pub collapse_paths: bool,
}

/// How to open the external git client on a selected repository: a
/// command and argument templates, where `%f` stands for the repository
/// path.
pub struct GitClientConfig {
    pub command: String,
    pub args: Vec<String>,
}

pub struct Config {
    pub filesystem: FilesystemConfig,
    pub view: ViewConfig,
    pub git_client: GitClientConfig,
}

/// Paths collapse in the display unless configured otherwise.
pub fn default_collapse_paths() -> (r: bool)
    ensures
        r == true,
{
    true
}

impl Default for ViewConfig {
    fn default() -> (r: ViewConfig)
        ensures
            r.collapse_paths == true,
    {
        ViewConfig { collapse_paths: default_collapse_paths() }
    }
}

impl Default for FilesystemScannerConfig {
    fn default() -> (r: FilesystemScannerConfig)
        ensures
            r.roots@.len() == 0,
            r.excludes@.len() == 0,
    {
        FilesystemScannerConfig { roots: Vec::new(), excludes: Vec::new() }
    }
}

impl Default for FilesystemConfig {
    fn default() -> (r: FilesystemConfig)
        ensures
            r.scanner.roots@.len() == 0,
            r.scanner.excludes@.len() == 0,
    {
        FilesystemConfig { scanner: FilesystemScannerConfig::default() }
    }
}

impl Default for GitClientConfig {
    fn default() -> (r: GitClientConfig)
        ensures
            r.command@.len() == 0,
            r.args@.len() == 0,
    {
        GitClientConfig { command: String::new(), args: Vec::new() }
    }
}

impl Default for Config {
    fn default() -> (r: Config)
        ensures
            r.filesystem.scanner.roots@.len() == 0,
            r.filesystem.scanner.excludes@.len() == 0,
            r.view.collapse_paths == true,
            r.git_client.command@.len() == 0,
            r.git_client.args@.len() == 0,
    {
        Config {
            filesystem: FilesystemConfig::default(),
            view: ViewConfig::default(),
            git_client: GitClientConfig::default(),
        }
    }
}

/// Why a configuration is rejected.  The first three carry the message of
/// a failure that happened while locating, reading or decoding the file —
/// work done outside the library and reported into it.
#[derive(Debug)]
pub enum Error {
    Io(String),
    TomlDecode(String),
    XdgBaseDirectories(String),
    EmptyFilesystemScannerRoots,
    GitClientTemplate(template::Error),
}

impl Error {
    /// A human-readable rendering of the error.
    pub fn message(&self) -> (m: String)
        ensures
            self is EmptyFilesystemScannerRoots ==> m@ == "missing filesystem scanner roots"@,
    {
        match self {
            Error::Io(e) => "I/O error ".to_owned().concat(e.as_str()),
            Error::TomlDecode(e) => "TOML decode error ".to_owned().concat(e.as_str()),
            Error::XdgBaseDirectories(e) => "XDG error ".to_owned().concat(e.as_str()),
            Error::EmptyFilesystemScannerRoots => "missing filesystem scanner roots".to_owned(),
            Error::GitClientTemplate(e) => "Git client template error ".to_owned().concat(
                e.message().as_str(),
            ),
        }
    }
}

/// The substitution table the git client templates are formatted with:
/// `%f` is the repository path.
pub open spec fn template_params(f: Seq<char>) -> Seq<(char, Seq<char>)> {
    seq![('f', f)]
}

/// What formatting every argument template means: the arguments in order,
/// or the first template error.
pub open spec fn format_args_spec(args: Seq<Seq<char>>, f: Seq<char>) -> Result<
    Seq<Seq<char>>,
    template::Error,
>
    decreases args.len(),
{
    if args.len() == 0 {
        Ok(Seq::empty())
    } else {
        match format_spec(args[0], template_params(f)) {
            Ok(first) => match format_args_spec(args.drop_first(), f) {
                Ok(rest) => Ok(seq![first] + rest),
                Err(e) => Err(e),
            },
            Err(e) => Err(e),
        }
    }
}

impl GitClientConfig {
    /// Format every configured argument template against `%f` = `f`.
    pub fn format_args(&self, f: &str) -> (r: Result<Vec<String>, Error>)
        ensures
            match r {
                Ok(out) => format_args_spec(crate::traversal::strings_view(self.args@), f@) == Ok::<
                    Seq<Seq<char>>,
                    template::Error,
                >(crate::traversal::strings_view(out@)),
                Err(e) => e matches Error::GitClientTemplate(te) && format_args_spec(
                    crate::traversal::strings_view(self.args@),
                    f@,
                ) == Err::<Seq<Seq<char>>, template::Error>(te),
            },
    {
        let mut values: Vec<(char, String)> = Vec::new();
        values.push(('f', f.to_owned()));
        proof {
            assert(values_view(values@) =~= template_params(f@));
        }
        let mut out: Vec<String> = Vec::new();
        let mut i: usize = 0;
        let ghost av = crate::traversal::strings_view(self.args@);
        proof {
            assert(av.skip(0) =~= av);
        }
        while i < self.args.len()
            invariant
                i <= self.args@.len(),
                av == crate::traversal::strings_view(self.args@),
                av.len() == self.args@.len(),
                values_view(values@) == template_params(f@),
                format_args_spec(av, f@) == (match format_args_spec(av.skip(i as int), f@) {
                    Ok(rest) => Ok::<Seq<Seq<char>>, template::Error>(
                        crate::traversal::strings_view(out@) + rest,
                    ),
                    Err(e) => Err(e),
                }),
            decreases self.args@.len() - i,
        {
            proof {
                assert(av.skip(i as int)[0] == av[i as int]);
                assert(av.skip(i as int).drop_first() =~= av.skip(i + 1));
            }
            match template::format(self.args[i].as_str(), &values) {
                Ok(formatted) => {
                    let ghost out0 = out@;
                    let ghost fv = formatted@;
                    out.push(formatted);
                    proof {
                        assert(crate::traversal::strings_view(out@) =~= crate::traversal::strings_view(
                            out0,
                        ).push(fv));
                        if format_args_spec(av.skip(i + 1), f@) is Ok {
                            let rest = format_args_spec(av.skip(i + 1), f@)->Ok_0;
                            assert(crate::traversal::strings_view(out0) + (seq![fv] + rest)
                                =~= crate::traversal::strings_view(out0).push(fv) + rest);
                        }
                    }
                }
                Err(e) => {
                    return Err(Error::GitClientTemplate(e));
                }
            }
            i = i + 1;
        }
        proof {
            assert(av.skip(i as int).len() == 0);
            assert(format_args_spec(av.skip(i as int), f@) == Ok::<Seq<Seq<char>>, template::Error>(
                Seq::empty(),
            ));
            assert(crate::traversal::strings_view(out@) + Seq::<Seq<char>>::empty()
                =~= crate::traversal::strings_view(out@));
        }
        Ok(out)
    }
}

/// A configuration is usable when it names at least one scan root and its
/// git-client argument templates format cleanly against a representative
/// path.
pub fn valid_config(c: Config) -> (r: Result<Config, Error>)
    ensures
        c.filesystem.scanner.roots@.len() == 0 ==> r matches Err(
            Error::EmptyFilesystemScannerRoots,
        ),
        c.filesystem.scanner.roots@.len() > 0 ==> match format_args_spec(
            crate::traversal::strings_view(c.git_client.args@),
            "dummy/path"@,
        ) {
            Ok(_) => r matches Ok(cc) && cc == c,
            Err(e) => r matches Err(Error::GitClientTemplate(ee)) && ee == e,
        },
{
    if c.filesystem.scanner.roots.len() == 0 {
        return Err(Error::EmptyFilesystemScannerRoots);
    }
    match c.git_client.format_args("dummy/path") {
        Ok(_) => Ok(c),
        Err(e) => Err(e),
    }
}

} // verus!
