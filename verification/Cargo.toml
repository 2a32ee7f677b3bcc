[package]
name = "krb5_provision_keytab"
version = "0.1.0"
edition = "2021"
publish = false
