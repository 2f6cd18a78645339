//! A node's identity: its listening address, its RSA key pair in PEM
//! text, and the passphrase protecting the private key. Key generation
//! and the encryption of gossip payloads are outside work; the library
//! holds the identity as plain text values.

use vstd::prelude::*;

verus! {

/// Mathematical value of a [`Config`].
pub struct ConfigV {
    pub address: Seq<char>,
    pub private_key_pem: Seq<char>,
    pub public_key_pem: Seq<char>,
    pub passphrase: Seq<char>,
}

/// One peer's identity and key material.
#[derive(Debug)]
pub struct Config {
    pub address: String,
    pub private_key_pem: String,
    pub public_key_pem: String,
    pub passphrase: String,
}

impl View for Config {
    type V = ConfigV;

    open spec fn view(&self) -> ConfigV {
        ConfigV {
            address: self.address@,
            private_key_pem: self.private_key_pem@,
            public_key_pem: self.public_key_pem@,
            passphrase: self.passphrase@,
        }
    }
}

impl Clone for Config {
    fn clone(&self) -> (r: Self)
        ensures
            r == *self,
    {
        Config {
            address: self.address.clone(),
            private_key_pem: self.private_key_pem.clone(),
            public_key_pem: self.public_key_pem.clone(),
            passphrase: self.passphrase.clone(),
        }
    }
}

impl Config {
    /// Assembles an identity from an address, an already-generated key
    /// pair in PEM text, and the passphrase the private key was
    /// protected with.
    pub fn new(
        address: String,
        private_key_pem: String,
        public_key_pem: String,
        passphrase: String,
    ) -> (r: Self)
        ensures
            r@ == (ConfigV {
                address: address@,
                private_key_pem: private_key_pem@,
                public_key_pem: public_key_pem@,
                passphrase: passphrase@,
            }),
    {
        Config { address, private_key_pem, public_key_pem, passphrase }
    }
}

} // verus!
