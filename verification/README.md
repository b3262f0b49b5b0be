# agentgw

A bridge between Slack threads and coding agents. One thread is answered by one agent: what people
write is handed to the agent, what it does is drawn as a progress message, and it answers through six
tools.

`src/` is the library: what the bridge decides and what it says, as verified functions. Each module
states its data as a mathematical view and proves its functions against it; the functions named `law_…`
are statements about the whole.

- `text`, `table`, `order`, `json`, `i18n`, `clock`, `log`, `product`: what the rest is built from.
- `chat`: messages as they come in, and `chat::slack`: Slack's events, limits and progress messages.
- `bridge::state`: who may use the bridge, what is remembered of threads, what is not answered yet.
- `bridge::worker`: agents, those that wait in the pool, and which of them are put to rest.
- `bridge::turn`: one turn of an agent: hooks, permission, silence, failure, use of the service.
- `bridge::render`: what is said in Slack.
- `mcp`: the tools that agents get. `fleet`: other machines, and the tunnels to them.
- `command`: what the program was called with.

`app/` is the program around the library: files, processes, Slack's API, and the endpoint that agents
call their tools through and send their hooks to.
The product that the agents run is not named in the library; its names come from the settings
`AGENTGW_AGENT_SERVICE`, `AGENTGW_AGENT_PROGRAM` and `AGENTGW_AGENT_COMMAND`.

A few facts about outside code are believed rather than proved. They stand in `text`, `json`, `clock`
and `chat::slack::wire`, each above the call it speaks of.
