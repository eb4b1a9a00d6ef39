use vstd::prelude::*;

verus! {

/// Subcommands of the command that manages TCP listeners.
#[derive(Debug, Clone, Copy, PartialEq, Eq, Structural)]
pub enum TcpListenerSubCommand {
    Create,
    Delete,
    List,
    Show,
}

/// Manage TCP listeners.
#[derive(Debug, Clone, Copy, PartialEq, Eq, Structural)]
pub struct TcpListenerCommand {
    pub subcommand: TcpListenerSubCommand,
}

/// Name shown for each subcommand.
pub open spec fn tcp_listener_command_name(s: TcpListenerSubCommand) -> Seq<char> {
    match s {
        TcpListenerSubCommand::Create => "create tcp listener"@,
        TcpListenerSubCommand::Delete => "delete tcp listener"@,
        TcpListenerSubCommand::List => "list tcp listeners"@,
        TcpListenerSubCommand::Show => "show tcp listener"@,
    }
}

impl TcpListenerCommand {
    /// Name of the command, as shown to the user.
    pub fn name(&self) -> (r: String)
        ensures
            r@ == tcp_listener_command_name(self.subcommand),
    {
        match self.subcommand {
            TcpListenerSubCommand::Create => "create tcp listener",
            TcpListenerSubCommand::Delete => "delete tcp listener",
            TcpListenerSubCommand::List => "list tcp listeners",
            TcpListenerSubCommand::Show => "show tcp listener",
        }.to_owned()
    }
}

/// Subcommands of the command that manages credentials.
#[derive(Debug, Clone, Copy, PartialEq, Eq, Structural)]
pub enum CredentialSubcommand {
    List,
    Issue,
    Store,
    Verify,
}

/// Manage credentials.
#[derive(Debug, Clone, Copy, PartialEq, Eq, Structural)]
pub struct CredentialCommand {
    pub subcommand: CredentialSubcommand,
}

/// Name shown for each subcommand.
pub open spec fn credential_command_name(s: CredentialSubcommand) -> Seq<char> {
    match s {
        CredentialSubcommand::Issue => "issue credential"@,
        CredentialSubcommand::List => "list credentials"@,
        CredentialSubcommand::Store => "store credential"@,
        CredentialSubcommand::Verify => "verify credential"@,
    }
}

impl CredentialCommand {
    /// Name of the command, as shown to the user.
    pub fn name(&self) -> (r: String)
        ensures
            r@ == credential_command_name(self.subcommand),
    {
        match self.subcommand {
            CredentialSubcommand::Issue => "issue credential",
            CredentialSubcommand::List => "list credentials",
            CredentialSubcommand::Store => "store credential",
            CredentialSubcommand::Verify => "verify credential",
        }.to_owned()
    }
}

/// Delete a Kafka inlet.
#[derive(Debug, Clone, PartialEq, Eq)]
pub struct DeleteCommand {
    /// Address of the Kafka inlet service.
    pub address: String,
}

impl DeleteCommand {
    /// Name of the command, as shown to the user.
    pub fn name(&self) -> (r: String)
        ensures
            r@ == "delete kafka inlet"@,
    {
        "delete kafka inlet".to_owned()
    }
}

} // verus!
