# node_system

A node-graph engine for video processing: nodes with input and output
sockets, a field (controller) that connects and disconnects them, frame
caches, socket layouts with a binary form, plugins that build nodes, and the
backend manager that carries out the frontend's messages.

The library under `src/` is verified with Verus:

- `ids`: node, socket and plugin ids (UUIDs), their text and binary forms.
- `binary`: fixed-width integers as bytes.
- `cache`: the ring buffer of computed frames, most recent first.
- `node_controller`: the node field, its connections and their rules, and
  the evaluation of a node from the nodes upstream of it.
- `field_message`: one step of the field's main loop.
- `socket_tree`, `socket_layer`: nested sockets and the layout's binary form.
- `plugin`, `plugin_manager`, `i64_to_string`: plugins and one plugin.
- `message`, `manager`: the backend manager's step.
- `channel`, `channel_com`, `err`: messages and errors between the parts.
- `envelope`: the integer side of envelopes (key frame order, segment search).
- `shared_memory`: a node's nested sockets and the walk to one socket's memory.
- `wait_response`: a node waiting for its upstream nodes to answer a frame.
- `widgets`: the GUI containers' construction.

`app/` is the program around it: threads, channels, the receive loops, the
floating-point envelope curves and run-time type checks.
