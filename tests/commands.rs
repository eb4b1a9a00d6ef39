use ockam_transport_udp::{
    CredentialCommand, CredentialSubcommand, DeleteCommand, TcpListenerCommand,
    TcpListenerSubCommand,
};

#[test]
fn tcp_listener_command_names() {
    let name = |subcommand| TcpListenerCommand { subcommand }.name();
    assert_eq!(name(TcpListenerSubCommand::Create), "create tcp listener");
    assert_eq!(name(TcpListenerSubCommand::Delete), "delete tcp listener");
    assert_eq!(name(TcpListenerSubCommand::List), "list tcp listeners");
    assert_eq!(name(TcpListenerSubCommand::Show), "show tcp listener");
}

#[test]
fn credential_command_names() {
    let name = |subcommand| CredentialCommand { subcommand }.name();
    assert_eq!(name(CredentialSubcommand::Issue), "issue credential");
    assert_eq!(name(CredentialSubcommand::List), "list credentials");
    assert_eq!(name(CredentialSubcommand::Store), "store credential");
    assert_eq!(name(CredentialSubcommand::Verify), "verify credential");
}

#[test]
fn delete_kafka_inlet_command_name() {
    let c = DeleteCommand { address: "kafka_inlet".to_string() };
    assert_eq!(c.name(), "delete kafka inlet");
}
