use vstd::prelude::*;

verus! {

/// An application extension: an eight-byte identifier, a three-byte
/// authentication code, and the raw data sub-blocks concatenated.
#[derive(Clone, Debug)]
pub struct Application {
    pub(crate) identifier: Vec<u8>,
    pub(crate) authentication_code: Vec<u8>,
    pub(crate) data: Vec<u8>,
}

impl Application {
    /// The field widths the wire format fixes.
    pub open spec fn wf(&self) -> bool {
        self.spec_identifier().len() == 8 && self.spec_authentication_code().len() == 3
    }

    pub closed spec fn spec_identifier(&self) -> Seq<u8> {
        self.identifier@
    }

    pub closed spec fn spec_authentication_code(&self) -> Seq<u8> {
        self.authentication_code@
    }

    pub closed spec fn spec_data(&self) -> Seq<u8> {
        self.data@
    }

    pub fn new(identifier: Vec<u8>, authentication_code: Vec<u8>, data: Vec<u8>) -> (r:
        Application)
        requires
            identifier@.len() == 8,
            authentication_code@.len() == 3,
        ensures
            r.wf(),
            r.spec_identifier() == identifier@,
            r.spec_authentication_code() == authentication_code@,
            r.spec_data() == data@,
    {
        Application { identifier, authentication_code, data }
    }

    pub fn identifier(&self) -> (r: &Vec<u8>)
        ensures
            r@ == self.spec_identifier(),
    {
        &self.identifier
    }

    pub fn authentication_code(&self) -> (r: &Vec<u8>)
        ensures
            r@ == self.spec_authentication_code(),
    {
        &self.authentication_code
    }

    pub fn data(&self) -> (r: &Vec<u8>)
        ensures
            r@ == self.spec_data(),
    {
        &self.data
    }
}

} // verus!
