# klldap

The logic of a lightweight LDAP directory server with Kerberos and Keycloak
integration, written in Verus: each function carries a `requires`/`ensures`
contract, and Verus proves the code against it.

## Layout

- `src/` — the verified library.
  - `text`, `ordered`: text helpers (case folding, splitting, decimal numbers,
    orderings) stated over `Seq<char>`.
  - `types`, `schema`, `schema_manager`: users, groups, attribute values, the
    built-in schema and the mapping from LDAP attribute names to fields.
  - `dn`, `scope`, `search`, `filters`, `results`, `attributes`, `compare`,
    `create`, `modify`, `handler`, `root_dse`, `subschema`: the LDAP side —
    distinguished names, search scopes and plans, filter conversion, result
    entries, compare/add/modify decisions, and the root DSE and subschema entries.
  - `filter_laws`: that one filter converts to one query, and how negation acts.
  - `storage`, `deserialize`, `sql_tables`, `group_query`, `user_query`,
    `user_creation`: how values are stored and read back, schema versions, the
    database conditions of group and user queries, and what creating a user decides.
  - `graphql*`, `mutations`: what the GraphQL API shows and the checks and
    requests behind its mutations.
  - `images`: avatar pictures; `kerberos`, `keycloak`: principals, realms, the
    steps of Kerberos administration and the Keycloak realm settings.
- `tests/` — tests of the library on concrete values.
- `app/` — ordinary Rust around the library: the LDAP wire protocol, the session
  loop, configuration files and the calls to the Kerberos admin service.

Calls into outside crates (`base64`, `chrono`, `image`, `uuid`, `ldap3_proto`,
`serde_json`, `bincode`) go through small trusted wrappers whose contracts say
what the library relies on; each wrapper's doc comment names the function it calls.
