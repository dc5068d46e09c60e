//! The description of a loadable OS plugin, as far as it is plain data.

use vstd::prelude::*;

verus! {

#[derive(Clone, Copy, Debug, PartialEq, Eq, Structural)]
pub enum PluginError {
    /// The plugin does not offer what was asked of it.
    NotSupported,
}

/// What an OS plugin declares about itself.
pub struct OsDescriptor {
    /// The plugin's name.
    pub name: String,
    /// The help texts that the plugin's help callback hands back, or `None`
    /// when the plugin has no help callback.
    pub help_texts: Option<Vec<String>>,
}

/// An OS plugin found in a library, ready to be instantiated.
pub struct LoadableOs {
    pub descriptor: OsDescriptor,
}

impl LoadableOs {
    /// Prefix of the symbols that OS plugins export.
    pub fn export_prefix() -> (r: &'static str)
        ensures
            r@ == "MEMFLOW_OS_"@,
    {
        "MEMFLOW_OS_"
    }

    /// The kind of plugin, for messages.
    pub fn plugin_type() -> (r: &'static str)
        ensures
            r@ == "OS"@,
    {
        "OS"
    }

    pub fn new(descriptor: OsDescriptor) -> (r: LoadableOs)
        ensures
            r.descriptor == descriptor,
    {
        LoadableOs { descriptor }
    }

    /// The plugin's name.
    pub fn ident(&self) -> (r: &str)
        ensures
            r@ == self.descriptor.name@,
    {
        self.descriptor.name.as_str()
    }

    /// The first help text the plugin gives; an error when it has no help
    /// callback or the callback gives no text.
    pub fn help(&self) -> (r: Result<String, PluginError>)
        ensures
            match self.descriptor.help_texts {
                Some(v) => if v@.len() > 0 {
                    r matches Ok(s) && s@ == v@[0]@
                } else {
                    r == Err::<String, PluginError>(PluginError::NotSupported)
                },
                None => r == Err::<String, PluginError>(PluginError::NotSupported),
            },
    {
        match &self.descriptor.help_texts {
            Some(v) => {
                if v.len() > 0 {
                    Ok(v[0].clone())
                } else {
                    Err(PluginError::NotSupported)
                }
            },
            None => Err(PluginError::NotSupported),
        }
    }

    /// OS plugins do not list targets.
    pub fn target_list(&self) -> (r: Result<Vec<String>, PluginError>)
        ensures
            r matches Err(e) && e == PluginError::NotSupported,
    {
        Err(PluginError::NotSupported)
    }
}

} // verus!
