//! What the service is started with: the directory it serves, the modes it
//! offers, where it listens, and how large an upload may be.

use vstd::prelude::*;

use crate::path::{parse, LexPath, PathModel};

verus! {

/// The configuration as plain values.
pub struct ConfigModel {
    pub root: PathModel,
    pub upload: bool,
    pub download: bool,
    pub listen_all: bool,
    pub port: u16,
    pub max_file_size: u64,
}

impl ConfigModel {
    /// At least one mode is on, and the root is a well-formed path.
    pub open spec fn wf(self) -> bool {
        (self.upload || self.download) && self.root.wf()
    }

    /// The page that the root of the site leads to: the upload page where
    /// uploading is the only mode, the download page in every other case.
    pub open spec fn landing(self) -> Seq<char> {
        if self.upload && !self.download {
            "/upload.html"@
        } else {
            "/download.html"@
        }
    }

    /// The address to bind: every interface, or the loopback interface only.
    pub open spec fn address(self) -> Seq<u8> {
        if self.listen_all {
            seq![0u8, 0u8, 0u8, 0u8]
        } else {
            seq![127u8, 0u8, 0u8, 1u8]
        }
    }
}

/// The configuration of a running service. It is made once and never
/// changes.
pub struct Config {
    root: LexPath,
    upload: bool,
    download: bool,
    listen_all: bool,
    port: u16,
    max_file_size: u64,
}

impl View for Config {
    type V = ConfigModel;

    closed spec fn view(&self) -> ConfigModel {
        ConfigModel {
            root: self.root@,
            upload: self.upload,
            download: self.download,
            listen_all: self.listen_all,
            port: self.port,
            max_file_size: self.max_file_size,
        }
    }
}

impl Config {
    #[verifier::type_invariant]
    spec fn inv(self) -> bool {
        self@.wf()
    }

    /// Makes a configuration. Where neither mode is asked for, downloading is
    /// switched on.
    pub fn new(
        root: &str,
        upload: bool,
        download: bool,
        listen_all: bool,
        port: u16,
        max_file_size: u64,
    ) -> (cfg: Config)
        ensures
            cfg@ == (ConfigModel {
                root: parse(root@),
                upload,
                download: download || !upload,
                listen_all,
                port,
                max_file_size,
            }),
            cfg@.wf(),
    {
        let root = LexPath::parse(root);
        Config { root, upload, download: download || !upload, listen_all, port, max_file_size }
    }

    /// The directory that is served.
    pub fn root(&self) -> (root: &LexPath)
        ensures
            root@ == self@.root,
            root@.wf(),
    {
        proof {
            use_type_invariant(self);
        }
        &self.root
    }

    /// Whether uploads are offered.
    pub fn upload_enabled(&self) -> (on: bool)
        ensures
            on == self@.upload,
            on || self@.download,
    {
        proof {
            use_type_invariant(self);
        }
        self.upload
    }

    /// Whether listing and retrieval are offered.
    pub fn download_enabled(&self) -> (on: bool)
        ensures
            on == self@.download,
            on || self@.upload,
    {
        proof {
            use_type_invariant(self);
        }
        self.download
    }

    /// The port to listen on.
    pub fn port(&self) -> (port: u16)
        ensures
            port == self@.port,
    {
        self.port
    }

    /// The largest size that an upload may declare.
    pub fn max_file_size(&self) -> (limit: u64)
        ensures
            limit == self@.max_file_size,
    {
        self.max_file_size
    }

    /// The address to bind.
    pub fn listen_address(&self) -> (address: [u8; 4])
        ensures
            address@ == self@.address(),
    {
        let address: [u8; 4] = if self.listen_all {
            [0, 0, 0, 0]
        } else {
            [127, 0, 0, 1]
        };
        assert(address@ =~= self@.address());
        address
    }

    /// The page that a request for the root of the site is sent on to.
    pub fn main_redirect(&self) -> (target: &'static str)
        ensures
            target@ == self@.landing(),
    {
        if self.upload && !self.download {
            "/upload.html"
        } else {
            "/download.html"
        }
    }
}

} // verus!
