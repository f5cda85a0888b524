use vstd::prelude::*;

verus! {

/// Where the editor reads and writes files. A storage says, through its two
/// spec functions, what a read gave and what a write was handed (one that
/// does not say holds them of everything); the editor's contract holds
/// whatever a storage returns, and says what it handed to the storage.
pub trait Storage {
    /// `data` is what reading `path` gave.
    closed spec fn read_gave(&self, path: Seq<char>, data: Seq<char>) -> bool {
        true
    }

    /// `data` was handed over to be written at `path`; `ok` says whether the
    /// write went through.
    closed spec fn write_took(&self, path: Seq<char>, data: Seq<char>, ok: bool) -> bool {
        true
    }

    fn read_to_string(&self, path: &str) -> (r: Result<String, std::io::Error>)
        ensures
            r matches Ok(c) ==> self.read_gave(path@, c@),
    ;

    fn write_string(&self, path: &str, data: &str) -> (r: Result<(), std::io::Error>)
        ensures
            self.write_took(path@, data@, r is Ok),
    ;
}

} // verus!
