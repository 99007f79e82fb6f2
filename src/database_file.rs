//! A version-tagged envelope around the stored database, so that a reader can refuse a format
//! it does not know instead of guessing.

use vstd::prelude::*;

use crate::errors::DatabaseReadError;

verus! {

#[verifier::external_type_specification]
#[verifier::external_body]
pub struct ExValue(serde_json::Value);

/// The current version of the database model.
pub const CURRENT_DATABASE_VERSION: u8 = 1;

/// A version-agnostic container for a database structure.
pub struct DatabaseFile {
    /// The version the payload was written in.
    pub version: u8,
    /// The payload, in the shape its version defines.
    pub data: serde_json::Value,
}

impl DatabaseFile {
    /// An envelope as read: the declared version and the payload next to it.
    pub fn new(version: u8, data: serde_json::Value) -> (r: Self)
        ensures
            r.version == version,
            r.data == data,
    {
        DatabaseFile { version, data }
    }

    /// An envelope for writing: the payload stamped with the current version.
    pub fn for_current_version(data: serde_json::Value) -> (r: Self)
        ensures
            r.version == CURRENT_DATABASE_VERSION,
            r.data == data,
    {
        DatabaseFile { version: CURRENT_DATABASE_VERSION, data }
    }

    /// The payload, handed out only if its version is the one this build decodes. Any other
    /// version is refused without looking at the payload.
    pub fn into_current_data(self) -> (r: Result<serde_json::Value, DatabaseReadError>)
        ensures
            r is Ok <==> self.version == CURRENT_DATABASE_VERSION,
            r matches Ok(v) ==> v == self.data,
            r is Err ==> r == Err::<serde_json::Value, DatabaseReadError>(
                DatabaseReadError::UnknownVersion(self.version),
            ),
    {
        if self.version != CURRENT_DATABASE_VERSION {
            return Err(DatabaseReadError::UnknownVersion(self.version));
        }
        Ok(self.data)
    }
}

} // verus!
