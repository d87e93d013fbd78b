//! Selection of the serialization format used for configuration input and
//! output.  The concrete (de)serializers live outside the library; the
//! library only carries the chosen format through the pipeline.

use vstd::prelude::*;
use vstd::string::StringExecFns;

verus! {

/// Failure modes of format handling.
#[derive(Debug)]
pub enum Error {
    /// The requested serialization format is not supported.  The argument
    /// is the requested format name.
    UnsupportedFormat(String),
}

impl Error {
    /// A human-readable description of the error.
    pub fn message(&self) -> (r: String)
        ensures
            self matches Error::UnsupportedFormat(fs) ==> r@ == "Unsupported format: "@ + fs@,
    {
        match self {
            Error::UnsupportedFormat(fs) => {
                let mut msg = "Unsupported format: ".to_owned();
                msg.append(fs.as_str());
                msg
            },
        }
    }
}

/// Tag class to specify the kind of (de)serialization to be used.
#[derive(Debug, Clone, Copy, PartialEq, Eq, Structural)]
pub enum Format {
    /// The human-editable structured-record format.
    Ron,
    /// The widely interoperable structured-document format.
    Json,
}

impl Format {
    /// Construct a `Format` from a string: exactly "ron" and "json" are
    /// accepted.
    pub fn from(s: &str) -> (r: Result<Self, Error>)
        ensures
            s@ == "ron"@ ==> (r matches Ok(f) && f is Ron),
            s@ == "json"@ ==> (r matches Ok(f) && f is Json),
            s@ != "ron"@ && s@ != "json"@ ==> (r matches Err(Error::UnsupportedFormat(fs)) && fs@
                == s@),
    {
        proof {
            reveal_strlit("ron");
            reveal_strlit("json");
            assert("ron"@.len() == 3);
            assert("json"@.len() == 4);
            assert("ron"@ != "json"@);
        }
        let owned = s.to_owned();
        if owned == "ron".to_owned() {
            Ok(Format::Ron)
        } else if owned == "json".to_owned() {
            Ok(Format::Json)
        } else {
            Err(Error::UnsupportedFormat(owned))
        }
    }
}

} // verus!
