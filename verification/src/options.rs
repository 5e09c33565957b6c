//! How a client connects, and what is known once it has connected.

use crate::properties::Properties;
use vstd::prelude::*;

verus! {

/// How to reach the server and how to sign in.
#[derive(Debug)]
pub struct ClientOptions {
    pub host: String,
    pub port: u16,
    pub user: String,
    pub password: String,
    pub v_host: String,
    pub heartbeat: u32,
    pub max_frame_size: u32,
    pub load_balancer_mode: bool,
    pub client_provided_name: String,
}

/// What is known of a connection once it is open.
#[derive(Debug)]
pub struct ConnectionData {
    pub client_options: ClientOptions,
    pub client_properties: Properties,
    pub server_properties: Properties,
    pub connection_properties: Properties,
    pub filtering_supported: bool,
    pub heartbeat: u32,
    pub max_frame_size: u32,
    pub handshake_mechanisms: Vec<String>,
}

impl ClientOptions {
    /// Returns options with the same values.
    pub fn copy(&self) -> (options: ClientOptions)
        ensures
            options == *self,
    {
        ClientOptions {
            host: self.host.clone(),
            port: self.port,
            user: self.user.clone(),
            password: self.password.clone(),
            v_host: self.v_host.clone(),
            heartbeat: self.heartbeat,
            max_frame_size: self.max_frame_size,
            load_balancer_mode: self.load_balancer_mode,
            client_provided_name: self.client_provided_name.clone(),
        }
    }
}

pub const PRODUCT: &'static str = "RabbitMQ";

pub const VERSION: &'static str = "0.1.0";

pub const PLATFORM: &'static str = "Rust";

pub const COPYRIGHT: &'static str =
    "Copyright (c) 2017-2023 Broadcom. All Rights Reserved. The term Broadcom refers to Broadcom Inc. and/or its subsidiaries.";

pub const INFORMATION: &'static str =
    "Licensed under the Apache 2.0 and MPL 2.0 licenses. See https://www.rabbitmq.com/";

/// The properties with which a client of the given name introduces itself.
pub open spec fn client_properties(name: Seq<char>) -> Map<Seq<char>, Seq<char>> {
    map![
        "product"@ => PRODUCT@,
        "version"@ => VERSION@,
        "platform"@ => PLATFORM@,
        "copyright"@ => COPYRIGHT@,
        "information"@ => INFORMATION@,
        "connection_name"@ => name,
    ]
}

/// Returns the properties with which a client with the given options introduces itself.
pub fn get_client_properties(client_options: &ClientOptions) -> (properties: Properties)
    ensures
        properties@ == client_properties(client_options.client_provided_name@),
{
    Properties::new().insert("product".to_owned(), PRODUCT.to_owned()).insert(
        "version".to_owned(),
        VERSION.to_owned(),
    ).insert("platform".to_owned(), PLATFORM.to_owned()).insert(
        "copyright".to_owned(),
        COPYRIGHT.to_owned(),
    ).insert("information".to_owned(), INFORMATION.to_owned()).insert(
        "connection_name".to_owned(),
        client_options.client_provided_name.clone(),
    )
}

/// A client introduces itself with six properties, among them the name that it was given, whatever
/// that is; clients of different names differ in nothing else.
pub proof fn law_client_tells_its_name(name: Seq<char>, other: Seq<char>)
    ensures
        ({
            let properties = client_properties(name);
            &&& properties.dom() == set![
                "product"@,
                "version"@,
                "platform"@,
                "copyright"@,
                "information"@,
                "connection_name"@,
            ]
            &&& properties["connection_name"@] == name
            &&& properties["product"@] == PRODUCT@
            &&& properties["version"@] == VERSION@
            &&& properties["platform"@] == PLATFORM@
            &&& properties["copyright"@] == COPYRIGHT@
            &&& properties["information"@] == INFORMATION@
            &&& client_properties(other) == properties.insert("connection_name"@, other)
        }),
{
    reveal_strlit("product");
    reveal_strlit("version");
    reveal_strlit("platform");
    reveal_strlit("copyright");
    reveal_strlit("information");
    reveal_strlit("connection_name");
    assert("product"@.len() == 7);
    assert("version"@.len() == 7);
    assert("product"@[0] == 'p');
    assert("version"@[0] == 'v');
    assert("platform"@.len() == 8);
    assert("copyright"@.len() == 9);
    assert("information"@.len() == 11);
    assert("connection_name"@.len() == 15);
    assert(client_properties(name).dom() =~= set![
        "product"@,
        "version"@,
        "platform"@,
        "copyright"@,
        "information"@,
        "connection_name"@,
    ]);
    assert(client_properties(other) =~= client_properties(name).insert("connection_name"@, other));
}

/// A client introduces itself with its name, whatever that is; a copy of options is the same.
pub proof fn law_options_lead_to_the_name(
    options: &ClientOptions,
    properties: Properties,
    copied: ClientOptions,
)
    requires
        call_ensures(get_client_properties, (options,), properties),
        call_ensures(ClientOptions::copy, (options,), copied),
    ensures
        properties@["connection_name"@] == options.client_provided_name@,
        properties@["product"@] == "RabbitMQ"@,
        properties@["platform"@] == "Rust"@,
        properties@.contains_key("connection_name"@),
        copied == *options,
{
    law_client_tells_its_name(options.client_provided_name@, Seq::empty());
}

} // verus!
