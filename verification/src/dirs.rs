use vstd::prelude::*;

verus! {

/// The directories the interpreter reads from: the working directory, and the
/// library, test and failing-test directories relative to it.
pub struct Dirs {
    cwd: String,
    libdir: String,
    testdir: String,
    failtestdir: String,
}

/// `base`, a slash, and `rel`.
pub open spec fn joined(base: Seq<char>, rel: Seq<char>) -> Seq<char> {
    base + "/"@ + rel
}

/// `base`, a slash, and `rel`, as a string.
pub fn join_path(base: &str, rel: &str) -> (r: String)
    ensures
        r@ == joined(base@, rel@),
{
    let mut r = String::from_str(base);
    r.append("/");
    r.append(rel);
    r
}

impl Dirs {
    pub closed spec fn cwd_spec(&self) -> Seq<char> {
        self.cwd@
    }

    pub closed spec fn libdir_spec(&self) -> Seq<char> {
        self.libdir@
    }

    pub closed spec fn testdir_spec(&self) -> Seq<char> {
        self.testdir@
    }

    pub closed spec fn failtestdir_spec(&self) -> Seq<char> {
        self.failtestdir@
    }

    /// The directories of a run in the working directory `cwd`: the library
    /// in `src/dartlib`, the tests in `test` and the failing tests in `testfail`.
    pub fn new(cwd: String) -> (r: Dirs)
        ensures
            r.cwd_spec() == cwd@,
            r.libdir_spec() == "src/dartlib"@,
            r.testdir_spec() == "test"@,
            r.failtestdir_spec() == "testfail"@,
    {
        Dirs {
            cwd,
            libdir: String::from_str("src/dartlib"),
            testdir: String::from_str("test"),
            failtestdir: String::from_str("testfail"),
        }
    }

    pub fn cwd(&self) -> (r: String)
        ensures
            r@ == self.cwd_spec(),
    {
        self.cwd.clone()
    }

    pub fn libdir(&self) -> (r: String)
        ensures
            r@ == joined(self.cwd_spec(), self.libdir_spec()),
    {
        join_path(self.cwd.as_str(), self.libdir.as_str())
    }

    pub fn testdir(&self) -> (r: String)
        ensures
            r@ == joined(self.cwd_spec(), self.testdir_spec()),
    {
        join_path(self.cwd.as_str(), self.testdir.as_str())
    }

    pub fn failtestdir(&self) -> (r: String)
        ensures
            r@ == joined(self.cwd_spec(), self.failtestdir_spec()),
    {
        join_path(self.cwd.as_str(), self.failtestdir.as_str())
    }
}

} // verus!
