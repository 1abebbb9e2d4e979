use vstd::prelude::*;

verus! {

#[verifier::external_type_specification]
#[verifier::external_body]
pub struct ExIoError(std::io::Error);

#[verifier::external_type_specification]
pub struct ExConnectError(tdiag_connect::ConnectError);

/// A generic error, carrying a description.
pub struct STError(pub String);

impl STError {
    /// The error for an I/O failure described by `detail`.
    pub fn io(detail: &str) -> (r: STError)
        ensures
            r.0@ == "io error: "@ + detail@,
    {
        let mut message = "io error: ".to_owned();
        message.append(detail);
        STError(message)
    }

    /// The error's description.
    pub fn message(&self) -> (r: String)
        ensures
            r@ == self.0@,
    {
        self.0.clone()
    }
}

impl From<std::io::Error> for STError {
    /// The error's description is `io error: ` followed by the I/O error's text.
    fn from(error: std::io::Error) -> (r: STError)
        ensures
            exists|s: String|
                vstd::string::to_string_from_display_ensures::<std::io::Error>(&error, s) && r.0@
                    == "io error: "@ + s@,
    {
        let detail = error.to_string();
        STError::io(detail.as_str())
    }
}

impl vstd::std_specs::convert::FromSpecImpl<std::io::Error> for STError {
    open spec fn obeys_from_spec() -> bool {
        false
    }

    open spec fn from_spec(v: std::io::Error) -> STError {
        arbitrary()
    }
}

impl From<tdiag_connect::ConnectError> for STError {
    /// An I/O failure is described as `io error: ` followed by its text; any
    /// other failure keeps its message unchanged.
    fn from(error: tdiag_connect::ConnectError) -> (r: STError)
        ensures
            error matches tdiag_connect::ConnectError::Other(m) ==> r.0@ == m@,
            error matches tdiag_connect::ConnectError::IoError(e) ==> exists|s: String|
                vstd::string::to_string_from_display_ensures::<std::io::Error>(&e, s) && r.0@
                    == "io error: "@ + s@,
    {
        match error {
            tdiag_connect::ConnectError::IoError(e) => {
                let detail = e.to_string();
                STError::io(detail.as_str())
            },
            tdiag_connect::ConnectError::Other(message) => STError(message),
        }
    }
}

impl vstd::std_specs::convert::FromSpecImpl<tdiag_connect::ConnectError> for STError {
    open spec fn obeys_from_spec() -> bool {
        false
    }

    open spec fn from_spec(v: tdiag_connect::ConnectError) -> STError {
        arbitrary()
    }
}

} // verus!
