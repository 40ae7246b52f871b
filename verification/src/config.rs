//! The server's configuration and its builder methods.
use vstd::prelude::*;
use crate::models::SiteConfig;

verus! {

broadcast use vstd::string::group_string_axioms;

/// Where the notes are, where the server listens, and what it serves.
pub struct ServerConfig {
    pub notes_dir: String,
    pub port: u16,
    pub host: String,
    /// Path of the authorization configuration file, if any.
    pub auth_config: Option<String>,
    pub user_db_path: String,
    pub site: SiteConfig,
    /// Absolute base URL the sitemap is served for; no sitemap when `None`.
    pub sitemap_base_url: Option<String>,
    /// Paths the sitemap lists besides the public notes.
    pub sitemap_static_paths: Vec<String>,
}

impl ServerConfig {
    /// The defaults: port 3000 on 127.0.0.1, no authorization file, users
    /// in `.users.db`, the default site, no sitemap, `/` as static path.
    pub fn new(notes_dir: String) -> (r: ServerConfig)
        ensures
            r.notes_dir@ == notes_dir@,
            r.port == 3000,
            r.host@ == "127.0.0.1"@,
            r.auth_config is None,
            r.user_db_path@ == ".users.db"@,
            r.site.title@ == "My Notes"@,
            r.site.site_url is None,
            r.site.author_name is None,
            r.site.author_url is None,
            r.sitemap_base_url is None,
            r.sitemap_static_paths@.len() == 1,
            r.sitemap_static_paths@[0]@ == "/"@,
    {
        let mut paths: Vec<String> = Vec::new();
        paths.push("/".to_owned());
        ServerConfig {
            notes_dir,
            port: 3000,
            host: "127.0.0.1".to_owned(),
            auth_config: None,
            user_db_path: ".users.db".to_owned(),
            site: SiteConfig::default(),
            sitemap_base_url: None,
            sitemap_static_paths: paths,
        }
    }

    pub fn sitemap_base_url(self, url: String) -> (r: ServerConfig)
        ensures
            r == (ServerConfig { sitemap_base_url: Some(url), ..self }),
    {
        let mut c = self;
        c.sitemap_base_url = Some(url);
        c
    }

    pub fn sitemap_static_paths(self, paths: Vec<String>) -> (r: ServerConfig)
        ensures
            r == (ServerConfig { sitemap_static_paths: paths, ..self }),
    {
        let mut c = self;
        c.sitemap_static_paths = paths;
        c
    }

    pub fn port(self, port: u16) -> (r: ServerConfig)
        ensures
            r == (ServerConfig { port, ..self }),
    {
        let mut c = self;
        c.port = port;
        c
    }

    pub fn host(self, host: String) -> (r: ServerConfig)
        ensures
            r == (ServerConfig { host, ..self }),
    {
        let mut c = self;
        c.host = host;
        c
    }

    /// Sets the site's title.
    pub fn title(self, title: String) -> (r: ServerConfig)
        ensures
            r == (ServerConfig { site: SiteConfig { title, ..self.site }, ..self }),
    {
        let mut c = self;
        c.site.title = title;
        c
    }

    pub fn auth_config(self, path: String) -> (r: ServerConfig)
        ensures
            r == (ServerConfig { auth_config: Some(path), ..self }),
    {
        let mut c = self;
        c.auth_config = Some(path);
        c
    }
}

} // verus!
