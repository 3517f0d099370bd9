//! Where extensions are installed.
//!
//! Copying files and updating the store are the caller's work; the library
//! decides where an extension lives and whether it may be installed or
//! removed (see `lifecycle::check_installable` and
//! `lifecycle::check_uninstallable`).

use vstd::prelude::*;

use crate::loader::ExtensionLoader;

verus! {

/// A single normal path component: non-empty, holding no separator (`/`
/// or `\\`) and no drive colon, and neither `.` nor `..`.
pub open spec fn plain_component(name: Seq<char>) -> bool {
    &&& name.len() > 0
    &&& !name.contains('/')
    &&& !name.contains('\\')
    &&& !name.contains(':')
    &&& name != seq!['.']
    &&& name != seq!['.', '.']
}

/// `std::path::Path::join` on UTF-8 paths. For a single normal component
/// the documentation gives the shape of the result: the component appended
/// to the directory, after a separator where one is needed (`PathBuf::push`
/// normalises only `.` and `..` components of what is pushed, and a plain
/// component has none). Which separator is the platform's, so the result is
/// one of three forms. Of other names nothing is claimed: an absolute one
/// replaces the directory, in a way that differs between platforms.
#[verifier::external_body]
fn path_join(dir: &str, name: &str) -> (r: String)
    ensures
        plain_component(name@) ==> (r@ == dir@ + name@ || r@ == dir@ + seq!['/'] + name@ || r@ == dir@
            + seq!['\\'] + name@),
{
    std::path::Path::new(dir).join(name).to_string_lossy().into_owned()
}

/// Installs extensions below one root directory.
#[derive(Debug)]
pub struct ExtensionInstaller {
    extensions_dir: String,
    loader: ExtensionLoader,
}

impl ExtensionInstaller {
    /// The root directory, as a value.
    pub closed spec fn dir(&self) -> Seq<char> {
        self.extensions_dir@
    }

    pub fn new(extensions_dir: String) -> (r: Self)
        ensures
            r.dir() == extensions_dir@,
    {
        ExtensionInstaller { extensions_dir, loader: ExtensionLoader::new() }
    }

    /// The root directory extensions are installed below.
    pub fn extensions_dir(&self) -> (r: &str)
        ensures
            r@ == self.dir(),
    {
        self.extensions_dir.as_str()
    }

    /// The loader that checks manifests before they are installed.
    pub fn loader(&self) -> (r: &ExtensionLoader)
        ensures
            *r == ExtensionLoader,
    {
        &self.loader
    }

    /// The directory an extension is installed in: its id below the root.
    pub fn get_extension_path(&self, extension_id: &str) -> (r: String)
        ensures
            plain_component(extension_id@) ==> (r@ == self.dir() + extension_id@ || r@ == self.dir()
                + seq!['/'] + extension_id@ || r@ == self.dir() + seq!['\\'] + extension_id@),
    {
        path_join(self.extensions_dir.as_str(), extension_id)
    }
}

} // verus!
