use vstd::prelude::*;

verus! {

/// std's I/O error, carried opaque in `StoreError`.
#[verifier::external_type_specification]
#[verifier::external_body]
pub struct ExIoError(std::io::Error);

/// serde_json's error, carried opaque in `StoreError`.
#[verifier::external_type_specification]
#[verifier::external_body]
pub struct ExJsonError(serde_json::Error);

/// Why an operation of the document store failed.
pub enum StoreError {
    /// The file's existence could not be checked, or it could not be read.
    CannotAccessFilesystem(std::io::Error),
    /// The file could not be created or written.
    CannotWriteToFilesystem(std::io::Error),
    /// The file's text is not a document of the expected shape.
    FailedToParseJson(serde_json::Error),
    /// The value could not be written out as a document.
    FailedToSerializeIntoJson(serde_json::Error),
}

/// A store for one document kept in the file at `url`, with the value read
/// from it cached after the first successful read.
///
/// The file system and the document format stay with the caller: the store
/// is handed the outcome of each load or save, and decides what is served
/// and what is kept.
pub struct Client<T> {
    pub url: String,
    pub json_data: Option<T>,
}

/// The store after a read that was handed `loaded`: a cached value stays,
/// else a loaded value is cached.
pub open spec fn after_read<T>(c: Client<T>, loaded: Result<T, StoreError>) -> Client<T> {
    if c.json_data is Some {
        c
    } else {
        match loaded {
            Ok(v) => Client { url: c.url, json_data: Some(v) },
            Err(_) => c,
        }
    }
}

/// The store after reads handed each of `loads`, in order.
pub open spec fn after_reads<T>(c: Client<T>, loads: Seq<Result<T, StoreError>>) -> Client<T>
    decreases loads.len(),
{
    if loads.len() == 0 {
        c
    } else {
        after_read(after_reads(c, loads.drop_last()), loads.last())
    }
}

/// Once a read has succeeded, no number of later reads changes the store,
/// whatever they are handed from the file: each of them serves a clone of
/// the value that the first one cached.
pub proof fn lemma_cache_is_kept<T>(
    c: Client<T>,
    loaded: Result<T, StoreError>,
    later: Seq<Result<T, StoreError>>,
)
    requires
        after_read(c, loaded).json_data is Some,
    ensures
        after_reads(after_read(c, loaded), later) == after_read(c, loaded),
    decreases later.len(),
{
    if later.len() > 0 {
        lemma_cache_is_kept(c, loaded, later.drop_last());
    }
}

impl<T: Clone> Client<T> {
    /// A store for the file at `url`, with nothing cached yet.
    pub fn new(url: &str) -> (r: Client<T>)
        ensures
            r.url@ == url@,
            r.json_data is None,
    {
        Client { url: url.to_string(), json_data: None }
    }

    /// Where the document is kept.
    pub fn url(&self) -> (r: &str)
        ensures
            r@ == self.url@,
    {
        self.url.as_str()
    }

    /// Whether a read has to load the file: nothing is cached yet.
    pub fn needs_load(&self) -> (r: bool)
        ensures
            r == (self.json_data is None),
    {
        self.json_data.is_none()
    }

    /// Reads the document. A cached value is served as it is, and `loaded`,
    /// which the caller need not have taken from the file, is then ignored.
    /// Else `loaded` is the outcome of reading and parsing the file: a value
    /// is cached and returned, an error is returned and nothing cached.
    pub fn read(&mut self, loaded: Result<T, StoreError>) -> (r: Result<T, StoreError>)
        ensures
            *final(self) == after_read(*old(self), loaded),
            (r is Ok) == (final(self).json_data is Some),
            r matches Ok(v) ==> cloned(final(self).json_data->0, v),
            old(self).json_data is None ==> (loaded matches Err(e) ==> r == Err::<T, StoreError>(
                e,
            )),
    {
        match &self.json_data {
            Some(c) => {
                return Ok(c.clone());
            },
            None => {},
        }
        match loaded {
            Ok(v) => {
                let w = v.clone();
                self.json_data = Some(v);
                Ok(w)
            },
            Err(e) => Err(e),
        }
    }

    /// Records the outcome of writing `new_data` to the file: once it was
    /// saved, `new_data` is what later reads serve; after a failure the store
    /// is left as it was and the error returned.
    pub fn write(&mut self, new_data: T, saved: Result<(), StoreError>) -> (r: Result<(), StoreError>)
        ensures
            final(self).url == old(self).url,
            match saved {
                Ok(()) => r is Ok && final(self).json_data == Some(new_data),
                Err(e) => r == Err::<(), StoreError>(e) && *final(self) == *old(self),
            },
    {
        match saved {
            Ok(()) => {
                self.json_data = Some(new_data);
                Ok(())
            },
            Err(e) => Err(e),
        }
    }
}

} // verus!
